use patchbay::qemu::{
    base_image_name, cloud_init_meta_data, cloud_init_user_data, default_image_url,
    default_qemu_bin, detect_accel, env_or, guest_mount_cmds, qemu_args, runtime_env,
    select_fs_mode, ssh_args, ssh_cmd_cli, ssh_probe_args, trimmed_is, virtiofsd_args,
    virtiofsd_candidates, VmConfig, VmSettings, NETWORK_CONFIG,
};

fn strs(xs: &[&str]) -> Vec<String> {
    xs.iter().map(|x| x.to_string()).collect()
}

fn settings() -> VmSettings {
    VmSettings {
        vm_name: None,
        image_url: None,
        mem_mb: None,
        cpus: None,
        disk_gb: None,
        ssh_user: None,
        qemu_bin: None,
        ssh_port: None,
        seed_port: None,
        virtiofsd_bin: None,
    }
}

fn vm() -> VmConfig {
    VmConfig::from_settings(&settings(), "x86_64", "/ws", "/ws/target", "/ws/work", "/ws/.qemu-vm", "/img", false)
}

fn fnv(bytes: &[u8]) -> u64 {
    let mut h: u64 = 0xcbf29ce484222325;
    for b in bytes {
        h ^= *b as u64;
        h = h.wrapping_mul(0x100000001b3);
    }
    h
}

#[test]
fn defaults_from_settings() {
    let v = vm();
    assert_eq!(v.vm_name, "patchbay-vm");
    assert_eq!(v.image_url, default_image_url("x86_64"));
    assert_eq!(v.qemu_bin, "qemu-system-x86_64");
    assert_eq!(default_qemu_bin("aarch64"), "qemu-system-aarch64");
    assert_eq!(v.mem_mb, "4096");
    assert_eq!(v.cpus, "4");
    assert_eq!(v.disk_gb, "40");
    assert_eq!(v.ssh_user, "dev");
    assert_eq!(v.ssh_port, "2222");
    assert_eq!(v.seed_port, "8555");
    assert_eq!(v.fs_mode, "9p");
    assert_eq!(env_or(&Some("x".to_string()), "d"), "x");
    assert_eq!(env_or(&None, "d"), "d");
}

#[test]
fn state_paths() {
    let v = vm();
    assert_eq!(v.vm_dir(), "/ws/.qemu-vm/patchbay-vm");
    assert_eq!(v.disk_img(), "/ws/.qemu-vm/patchbay-vm/disk.qcow2");
    assert_eq!(v.ssh_key(), "/ws/.qemu-vm/patchbay-vm/id_ed25519");
    assert_eq!(v.runtime_file(), "/ws/.qemu-vm/patchbay-vm/runtime.env");
    assert_eq!(v.p("x"), "/ws/.qemu-vm/patchbay-vm/x");
}

#[test]
fn base_image_file_name() {
    let url = "https://example.org/images/debian 13.qcow2?sig=1";
    let expected = format!("debian_13-{:016x}.qcow2", fnv(url.as_bytes()));
    assert_eq!(base_image_name(url), expected);
    let plain = "image";
    assert_eq!(base_image_name(plain), format!("image-{:016x}.qcow2", fnv(plain.as_bytes())));
}

#[test]
fn boot_arguments() {
    let v = vm();
    let a = qemu_args(&v, "kvm", "host", &None, " iso\n");
    assert_eq!(&a[..2], &strs(&["-name", "patchbay-vm"])[..]);
    assert!(a.contains(&"if=virtio,media=cdrom,format=raw,readonly=on,file=/ws/.qemu-vm/patchbay-vm/seed.iso".to_string()));
    assert!(a.contains(&"user,id=net0,hostfwd=tcp:127.0.0.1:2222-:22".to_string()));
    assert!(a.contains(&"-virtfs".to_string()));
    assert!(!a.contains(&"-M".to_string()));
    let b = qemu_args(&v, "tcg", "max", &None, "http");
    assert!(b.contains(&"type=1,serial=ds=nocloud;s=http://10.0.2.2:8555/".to_string()));
    let mut v2 = vm();
    select_fs_mode(&mut v2, Some("/usr/bin/virtiofsd".to_string()));
    assert_eq!(v2.fs_mode, "virtiofs");
    assert_eq!(v2.virtiofsd_bin.as_deref(), Some("/usr/bin/virtiofsd"));
    let c = qemu_args(&v2, "kvm", "host", &None, "iso");
    assert!(c.contains(&"memory-backend-memfd,id=mem,size=4096M,share=on".to_string()));
    let mut v3 = vm();
    select_fs_mode(&mut v3, None);
    assert_eq!(v3.fs_mode, "9p");
}

#[test]
fn ssh_arguments() {
    let v = vm();
    let a = ssh_args(&v, &strs(&["echo", "a b"]));
    assert_eq!(a.last().unwrap(), "echo 'a b'");
    assert_eq!(a[a.len() - 2], "dev@127.0.0.1");
    let p = ssh_probe_args(&v, false);
    assert!(p.contains(&"LogLevel=ERROR".to_string()));
    assert_eq!(p.last().unwrap(), "true");
    assert_eq!(ssh_cmd_cli(&v, &Vec::new()), Err("ssh: missing remote command".to_string()));
    assert!(ssh_cmd_cli(&v, &strs(&["ls"])).is_ok());
}

#[test]
fn mounts_and_runtime() {
    let cmds = guest_mount_cmds("9p");
    assert_eq!(cmds.len(), 11);
    assert_eq!(cmds[0], strs(&["sudo", "mkdir", "-p", "/app", "/target", "/work"]));
    assert!(cmds[2][3].starts_with("mountpoint -q /app || mount -t 9p"));
    let vf = guest_mount_cmds("virtiofs");
    assert!(vf[2][3].starts_with("mountpoint -q /app || mount -t virtiofs -o ro workspace /app"));
    assert_eq!(
        runtime_env(&vm()),
        "workspace=/ws\ntarget_dir=/ws/target\nwork_dir=/ws/work\nfs_mode=9p\nssh_port=2222\n"
    );
}

#[test]
fn cloud_init() {
    let u = cloud_init_user_data("dev", "  ssh-ed25519 AAAA key\n");
    assert!(u.starts_with("#cloud-config\n"));
    assert!(u.contains("  - name: dev\n"));
    assert!(u.contains("      - ssh-ed25519 AAAA key\nssh_pwauth: false"));
    assert_eq!(cloud_init_meta_data("vm1"), "instance-id: vm1\nlocal-hostname: vm1\n");
    assert!(NETWORK_CONFIG.contains("dhcp4: true"));
}

#[test]
fn accelerators() {
    assert_eq!(detect_accel("linux", true, &None), ("kvm".to_string(), "host".to_string()));
    assert_eq!(detect_accel("linux", false, &None), ("tcg".to_string(), "max".to_string()));
    assert_eq!(
        detect_accel("macos", false, &Some("Accelerators supported:\n  hvf\ntcg\n".to_string())),
        ("hvf".to_string(), "host".to_string())
    );
    assert_eq!(detect_accel("macos", false, &Some("tcg\n".to_string())), ("tcg".to_string(), "max".to_string()));
    assert!(trimmed_is(" iso \n", "iso"));
    assert!(!trimmed_is("isox", "iso"));
}

#[test]
fn virtiofsd() {
    let mut s = settings();
    s.virtiofsd_bin = Some("/custom/virtiofsd".to_string());
    let v = VmConfig::from_settings(&s, "x86_64", "/ws", "/t", "/w", "/s", "/i", false);
    let c = virtiofsd_candidates(&v);
    assert_eq!(c.len(), 6);
    assert_eq!(c[0], "/custom/virtiofsd");
    assert_eq!(virtiofsd_candidates(&vm()).len(), 5);
    let ro = virtiofsd_args("/ws", "/s.sock", true, 1000, 1000);
    assert_eq!(ro.last().unwrap(), "--readonly");
    let rw = virtiofsd_args("/w", "/w.sock", false, 501, 20);
    assert_eq!(&rw[rw.len() - 4..], &strs(&["--translate-uid", "squash-guest:0:501:65536", "--translate-gid", "squash-guest:0:20:65536"])[..]);
}
