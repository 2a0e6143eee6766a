//! The QEMU backend: the VM's configuration and state files, and the command
//! lines that boot it, reach it over SSH and mount the shared directories.

use vstd::prelude::*;
use crate::text::{
    chars_of, clone_opt_string, occurs_at, ends_with, eq_str, find_char, find_char_idx, hex_padded,
    into_string, join_path, opt_chars, path_join, push_chars, push_hex,
    push_lit, push_str, push_string, rfind, rfind_idx, slice_chars, strings_view, strip_suffix,
    string_from, trim, trim_chars, contains, has_substring, append_strings,
};
use crate::vm::{fnv1a64, fnv_hash, join_words, escaped_words, sanitize_filename, sanitized_filename, shell_join};

verus! {

/// The values of the `QEMU_VM_*` environment variables, where set.
#[derive(Debug)]
pub struct VmSettings {
    pub vm_name: Option<String>,
    pub image_url: Option<String>,
    pub mem_mb: Option<String>,
    pub cpus: Option<String>,
    pub disk_gb: Option<String>,
    pub ssh_user: Option<String>,
    pub qemu_bin: Option<String>,
    pub ssh_port: Option<String>,
    pub seed_port: Option<String>,
    pub virtiofsd_bin: Option<String>,
}

/// The configuration of the local QEMU VM. Paths are held as text.
#[derive(Debug)]
pub struct VmConfig {
    pub vm_name: String,
    pub image_url: String,
    pub mem_mb: String,
    pub cpus: String,
    pub disk_gb: String,
    pub ssh_user: String,
    pub qemu_bin: String,
    pub ssh_port: String,
    pub seed_port: String,
    pub workspace: String,
    pub target_dir: String,
    pub work_dir: String,
    pub state_root: String,
    pub shared_image_dir: String,
    pub recreate: bool,
    pub virtiofsd_bin: Option<String>,
    pub fs_mode: String,
}

/// A set value, or the default.
pub open spec fn value_or(v: Option<Seq<char>>, default: Seq<char>) -> Seq<char> {
    match v {
        Some(x) => x,
        None => default,
    }
}

/// The value of a variable, or `default` when it is not set.
pub fn env_or(v: &Option<String>, default: &str) -> (r: String)
    ensures
        r@ == value_or(opt_chars(*v), default@),
{
    match v {
        Some(x) => x.clone(),
        None => default.to_owned(),
    }
}

/// The QEMU binary for a host of architecture `arch`.
pub open spec fn qemu_bin_for(arch: Seq<char>) -> Seq<char> {
    if arch == "aarch64"@ {
        "qemu-system-aarch64"@
    } else {
        "qemu-system-x86_64"@
    }
}

/// The Debian cloud image for a host of architecture `arch`.
pub open spec fn image_url_for(arch: Seq<char>) -> Seq<char> {
    if arch == "aarch64"@ {
        "https://cloud.debian.org/images/cloud/trixie/latest/debian-13-genericcloud-arm64.qcow2"@
    } else {
        "https://cloud.debian.org/images/cloud/trixie/latest/debian-13-genericcloud-amd64.qcow2"@
    }
}

/// The default QEMU binary on a host of architecture `arch`.
pub fn default_qemu_bin(arch: &str) -> (r: &'static str)
    ensures
        r@ == qemu_bin_for(arch@),
{
    if crate::vm::is_arm64_host(arch) {
        "qemu-system-aarch64"
    } else {
        "qemu-system-x86_64"
    }
}

/// The default base image on a host of architecture `arch`.
pub fn default_image_url(arch: &str) -> (r: &'static str)
    ensures
        r@ == image_url_for(arch@),
{
    if crate::vm::is_arm64_host(arch) {
        "https://cloud.debian.org/images/cloud/trixie/latest/debian-13-genericcloud-arm64.qcow2"
    } else {
        "https://cloud.debian.org/images/cloud/trixie/latest/debian-13-genericcloud-amd64.qcow2"
    }
}

/// The default memory of the guest, in MiB.
pub const DEFAULT_MEM_MB: &'static str = "4096";

/// The default number of guest CPUs.
pub const DEFAULT_CPUS: &'static str = "4";

impl VmConfig {
    /// The configuration from the environment `env`, on a host of architecture
    /// `arch`, for the given directories. The shared
    /// file system starts as 9p.
    pub fn from_settings(
        env: &VmSettings,
        arch: &str,
        workspace: &str,
        target_dir: &str,
        work_dir: &str,
        state_root: &str,
        shared_image_dir: &str,
        recreate: bool,
    ) -> (vm: VmConfig)
        ensures
            vm.vm_name@ == value_or(opt_chars(env.vm_name), "patchbay-vm"@),
            vm.image_url@ == value_or(opt_chars(env.image_url), image_url_for(arch@)),
            vm.mem_mb@ == value_or(opt_chars(env.mem_mb), "4096"@),
            vm.cpus@ == value_or(opt_chars(env.cpus), "4"@),
            vm.disk_gb@ == value_or(opt_chars(env.disk_gb), "40"@),
            vm.ssh_user@ == value_or(opt_chars(env.ssh_user), "dev"@),
            vm.qemu_bin@ == value_or(opt_chars(env.qemu_bin), qemu_bin_for(arch@)),
            vm.ssh_port@ == value_or(opt_chars(env.ssh_port), "2222"@),
            vm.seed_port@ == value_or(opt_chars(env.seed_port), "8555"@),
            vm.workspace@ == workspace@,
            vm.target_dir@ == target_dir@,
            vm.work_dir@ == work_dir@,
            vm.state_root@ == state_root@,
            vm.shared_image_dir@ == shared_image_dir@,
            vm.recreate == recreate,
            opt_chars(vm.virtiofsd_bin) == opt_chars(env.virtiofsd_bin),
            vm.fs_mode@ == "9p"@,
    {
        VmConfig {
            vm_name: env_or(&env.vm_name, "patchbay-vm"),
            image_url: env_or(&env.image_url, default_image_url(arch)),
            mem_mb: env_or(&env.mem_mb, DEFAULT_MEM_MB),
            cpus: env_or(&env.cpus, DEFAULT_CPUS),
            disk_gb: env_or(&env.disk_gb, "40"),
            ssh_user: env_or(&env.ssh_user, "dev"),
            qemu_bin: env_or(&env.qemu_bin, default_qemu_bin(arch)),
            ssh_port: env_or(&env.ssh_port, "2222"),
            seed_port: env_or(&env.seed_port, "8555"),
            workspace: workspace.to_owned(),
            target_dir: target_dir.to_owned(),
            work_dir: work_dir.to_owned(),
            state_root: state_root.to_owned(),
            shared_image_dir: shared_image_dir.to_owned(),
            recreate,
            virtiofsd_bin: clone_opt_string(&env.virtiofsd_bin),
            fs_mode: "9p".to_owned(),
        }
    }

    /// The directory of this VM's state: the state root joined with its name.
    pub open spec fn vm_dir_text(&self) -> Seq<char> {
        join_path(self.state_root@, self.vm_name@)
    }

    /// The directory that holds the state of all VMs.
    pub fn state_root(&self) -> (r: String)
        ensures
            r@ == self.state_root@,
    {
        self.state_root.clone()
    }

    /// The directory of this VM's state.
    pub fn vm_dir(&self) -> (r: String)
        ensures
            r@ == self.vm_dir_text(),
    {
        path_join(self.state_root.as_str(), self.vm_name.as_str())
    }

    /// The state file `name` of this VM.
    pub fn p(&self, name: &str) -> (r: String)
        ensures
            r@ == join_path(self.vm_dir_text(), name@),
    {
        let d = self.vm_dir();
        path_join(d.as_str(), name)
    }

    /// The cached base image, shared by all VMs.
    pub fn base_img(&self) -> (r: String)
        ensures
            r@ == join_path(self.shared_image_dir@, base_image_text(self.image_url@)),
    {
        let n = base_image_name(self.image_url.as_str());
        path_join(self.shared_image_dir.as_str(), n.as_str())
    }

    /// The VM's disk, a copy-on-write overlay of the base image.
    pub fn disk_img(&self) -> (r: String)
        ensures
            r@ == join_path(self.vm_dir_text(), "disk.qcow2"@),
    {
        self.p("disk.qcow2")
    }

    /// The cloud-init seed image.
    pub fn seed_img(&self) -> (r: String)
        ensures
            r@ == join_path(self.vm_dir_text(), "seed.iso"@),
    {
        self.p("seed.iso")
    }

    /// The directory served as the cloud-init seed over HTTP.
    pub fn seed_dir(&self) -> (r: String)
        ensures
            r@ == join_path(self.vm_dir_text(), "seed-http"@),
    {
        self.p("seed-http")
    }

    /// The cloud-init user data.
    pub fn user_data(&self) -> (r: String)
        ensures
            r@ == join_path(self.vm_dir_text(), "user-data"@),
    {
        self.p("user-data")
    }

    /// The cloud-init meta data.
    pub fn meta_data(&self) -> (r: String)
        ensures
            r@ == join_path(self.vm_dir_text(), "meta-data"@),
    {
        self.p("meta-data")
    }

    /// The cloud-init network configuration.
    pub fn network_cfg(&self) -> (r: String)
        ensures
            r@ == join_path(self.vm_dir_text(), "network-config"@),
    {
        self.p("network-config")
    }

    /// The file that records how the seed is served.
    pub fn seed_mode_file(&self) -> (r: String)
        ensures
            r@ == join_path(self.vm_dir_text(), "seed-mode"@),
    {
        self.p("seed-mode")
    }

    /// The pid file of the seed HTTP server.
    pub fn seed_pid_file(&self) -> (r: String)
        ensures
            r@ == join_path(self.vm_dir_text(), "seed-http.pid"@),
    {
        self.p("seed-http.pid")
    }

    /// The virtiofs socket of the workspace share.
    pub fn workspace_sock(&self) -> (r: String)
        ensures
            r@ == join_path(self.vm_dir_text(), "workspace.vfs.sock"@),
    {
        self.p("workspace.vfs.sock")
    }

    /// The virtiofs socket of the target share.
    pub fn target_sock(&self) -> (r: String)
        ensures
            r@ == join_path(self.vm_dir_text(), "target.vfs.sock"@),
    {
        self.p("target.vfs.sock")
    }

    /// The virtiofs socket of the work share.
    pub fn work_sock(&self) -> (r: String)
        ensures
            r@ == join_path(self.vm_dir_text(), "work.vfs.sock"@),
    {
        self.p("work.vfs.sock")
    }

    /// The pid file of the workspace's virtiofsd.
    pub fn workspace_vfs_pid(&self) -> (r: String)
        ensures
            r@ == join_path(self.vm_dir_text(), "workspace.virtiofsd.pid"@),
    {
        self.p("workspace.virtiofsd.pid")
    }

    /// The pid file of the target's virtiofsd.
    pub fn target_vfs_pid(&self) -> (r: String)
        ensures
            r@ == join_path(self.vm_dir_text(), "target.virtiofsd.pid"@),
    {
        self.p("target.virtiofsd.pid")
    }

    /// The pid file of the work dir's virtiofsd.
    pub fn work_vfs_pid(&self) -> (r: String)
        ensures
            r@ == join_path(self.vm_dir_text(), "work.virtiofsd.pid"@),
    {
        self.p("work.virtiofsd.pid")
    }

    /// The pid file of QEMU.
    pub fn pid_file(&self) -> (r: String)
        ensures
            r@ == join_path(self.vm_dir_text(), "qemu.pid"@),
    {
        self.p("qemu.pid")
    }

    /// The guest's serial console log.
    pub fn serial_log(&self) -> (r: String)
        ensures
            r@ == join_path(self.vm_dir_text(), "serial.log"@),
    {
        self.p("serial.log")
    }

    /// The SSH key of the VM.
    pub fn ssh_key(&self) -> (r: String)
        ensures
            r@ == join_path(self.vm_dir_text(), "id_ed25519"@),
    {
        self.p("id_ed25519")
    }

    /// The SSH known-hosts file of the VM.
    pub fn known_hosts(&self) -> (r: String)
        ensures
            r@ == join_path(self.vm_dir_text(), "known_hosts"@),
    {
        self.p("known_hosts")
    }

    /// The file that records what the running VM shares.
    pub fn runtime_file(&self) -> (r: String)
        ensures
            r@ == join_path(self.vm_dir_text(), "runtime.env"@),
    {
        self.p("runtime.env")
    }
}

/// The last piece of `url` after a `/`, cut at the first `?`, without a
/// `.qcow2` suffix.
pub open spec fn image_stem(url: Seq<char>) -> Seq<char> {
    let tail = match rfind(url, "/"@) {
        Some(i) => url.skip(i + 1),
        None => url,
    };
    let tail = match find_char(tail, '?') {
        Some(j) => tail.take(j),
        None => tail,
    };
    if ends_with(tail, ".qcow2"@) {
        tail.take(tail.len() - 6)
    } else {
        tail
    }
}

/// The file name of the cached base image of `url`: its stem made safe as a
/// file name, a dash, the 16 hex digits of the FNV-1a hash of the URL's UTF-8
/// bytes, and `.qcow2`.
pub open spec fn base_image_text(url: Seq<char>) -> Seq<char> {
    sanitized_filename(image_stem(url)) + "-"@ + hex_padded(fnv_hash(vstd::utf8::encode_utf8(url)) as nat, 16)
        + ".qcow2"@
}


/// The file name of the cached base image of `image_url`.
pub fn base_image_name(image_url: &str) -> (r: String)
    ensures
        r@ == base_image_text(image_url@),
{
    let url = chars_of(image_url);
    let slash = chars_of("/");
    proof {
        reveal_strlit("/");
    }
    let ghost t1 = match rfind(url@, "/"@) {
        Some(i) => url@.skip(i + 1),
        None => url@,
    };
    let found = rfind_idx(&url, &slash);
    let tail = match found {
        Some(i) => {
            proof {
                assert(slash@.len() == 1);
                assert(occurs_at(url@, slash@, i as int));
                assert(i + 1 <= url@.len());
                assert(i < url.len());
            }
            slice_chars(&url, i + 1, url.len())
        },
        None => slice_chars(&url, 0, url.len()),
    };
    proof {
        assert(tail@ =~= t1);
    }
    let ghost t2 = match find_char(t1, '?') {
        Some(j) => t1.take(j),
        None => t1,
    };
    let tail2 = match find_char_idx(&tail, '?') {
        Some(j) => slice_chars(&tail, 0, j),
        None => tail,
    };
    proof {
        assert(tail2@ =~= t2);
    }
    let stem = match strip_suffix(&tail2, ".qcow2") {
        Some(s) => s,
        None => tail2,
    };
    proof {
        reveal_strlit(".qcow2");
        assert(stem@ =~= image_stem(image_url@));
    }
    let stem_s = string_from(&stem);
    let clean = sanitize_filename(stem_s.as_str());
    let hash = fnv1a64(image_url.as_bytes());
    let mut v = chars_of(clean.as_str());
    push_str(&mut v, "-");
    push_hex(&mut v, hash, 16);
    push_str(&mut v, ".qcow2");
    into_string(v)
}


/// `text` with surrounding whitespace removed is exactly `word`.
pub fn trimmed_is(text: &str, word: &str) -> (b: bool)
    ensures
        b == (trim(text@) == word@),
{
    let cs = chars_of(text);
    let t = trim_chars(&cs);
    eq_str(&t, word)
}

/// The QEMU arguments that name the VM, its pid file and serial log, its
/// memory, CPUs and accelerator.
pub open spec fn qemu_head(vm: VmConfig, accel: Seq<char>, cpu: Seq<char>) -> Seq<Seq<char>> {
    let d = vm.vm_dir_text();
    seq![
        "-name"@,
        vm.vm_name@,
        "-daemonize"@,
        "-pidfile"@,
        join_path(d, "qemu.pid"@),
        "-display"@,
        "none"@,
        "-serial"@,
        "file:"@ + join_path(d, "serial.log"@),
        "-m"@,
        vm.mem_mb@,
        "-smp"@,
        vm.cpus@,
        "-accel"@,
        accel,
        "-cpu"@,
        cpu,
    ]
}

/// The `virt` machine and its firmware, for an aarch64 QEMU.
pub open spec fn qemu_machine(vm: VmConfig, efi: Option<Seq<char>>) -> Seq<Seq<char>> {
    if contains(vm.qemu_bin@, "aarch64"@) {
        seq!["-M"@, "virt"@] + match efi {
            Some(e) => seq!["-bios"@, e],
            None => Seq::empty(),
        }
    } else {
        Seq::empty()
    }
}

/// The disk, the cloud-init seed (a CD-ROM when `seed_iso`, else served over
/// HTTP) and the network with its SSH port forward.
pub open spec fn qemu_storage(vm: VmConfig, seed_iso: bool) -> Seq<Seq<char>> {
    let d = vm.vm_dir_text();
    seq!["-drive"@, "if=virtio,format=qcow2,file="@ + join_path(d, "disk.qcow2"@)] + (if seed_iso {
        seq!["-drive"@, "if=virtio,media=cdrom,format=raw,readonly=on,file="@ + join_path(d, "seed.iso"@)]
    } else {
        seq!["-smbios"@, "type=1,serial=ds=nocloud;s=http://10.0.2.2:"@ + vm.seed_port@ + "/"@]
    }) + seq![
        "-netdev"@,
        "user,id=net0,hostfwd=tcp:127.0.0.1:"@ + vm.ssh_port@ + "-:22"@,
        "-device"@,
        "virtio-net-pci,netdev=net0"@,
    ]
}

/// The shared workspace, target and work directories: over virtiofs sockets
/// when that is the file-system mode, else as 9p exports.
pub open spec fn qemu_shares(vm: VmConfig) -> Seq<Seq<char>> {
    let d = vm.vm_dir_text();
    if vm.fs_mode@ == "virtiofs"@ {
        seq![
            "-object"@,
            "memory-backend-memfd,id=mem,size="@ + vm.mem_mb@ + "M,share=on"@,
            "-numa"@,
            "node,memdev=mem"@,
            "-chardev"@,
            "socket,id=workspacefs,path="@ + join_path(d, "workspace.vfs.sock"@),
            "-device"@,
            "vhost-user-fs-pci,chardev=workspacefs,tag=workspace"@,
            "-chardev"@,
            "socket,id=targetfs,path="@ + join_path(d, "target.vfs.sock"@),
            "-device"@,
            "vhost-user-fs-pci,chardev=targetfs,tag=target"@,
            "-chardev"@,
            "socket,id=workfs,path="@ + join_path(d, "work.vfs.sock"@),
            "-device"@,
            "vhost-user-fs-pci,chardev=workfs,tag=work"@,
        ]
    } else {
        seq![
            "-virtfs"@,
            "local,path="@ + vm.workspace@
                + ",mount_tag=workspace,security_model=none,multidevs=remap,id=workspace,readonly=on"@,
            "-virtfs"@,
            "local,path="@ + vm.target_dir@
                + ",mount_tag=target,security_model=none,multidevs=remap,id=target,readonly=on"@,
            "-virtfs"@,
            "local,path="@ + vm.work_dir@ + ",mount_tag=work,security_model=none,multidevs=remap,id=work"@,
        ]
    }
}

/// The arguments that boot the VM with QEMU.
pub open spec fn qemu_command(
    vm: VmConfig,
    accel: Seq<char>,
    cpu: Seq<char>,
    efi: Option<Seq<char>>,
    seed_iso: bool,
) -> Seq<Seq<char>> {
    qemu_head(vm, accel, cpu) + qemu_machine(vm, efi) + qemu_storage(vm, seed_iso) + qemu_shares(vm)
}

fn concat2(a: &str, b: &str) -> (r: String)
    ensures
        r@ == a@ + b@,
{
    let mut v: Vec<char> = Vec::new();
    push_str(&mut v, a);
    push_str(&mut v, b);
    into_string(v)
}

fn concat3(a: &str, b: &str, c: &str) -> (r: String)
    ensures
        r@ == a@ + b@ + c@,
{
    let mut v: Vec<char> = Vec::new();
    push_str(&mut v, a);
    push_str(&mut v, b);
    push_str(&mut v, c);
    into_string(v)
}

fn qemu_head_args(vm: &VmConfig, accel: &str, cpu: &str) -> (r: Vec<String>)
    ensures
        strings_view(r@) == qemu_head(*vm, accel@, cpu@),
{
    let mut out: Vec<String> = Vec::new();
    push_lit(&mut out, "-name");
    push_string(&mut out, &vm.vm_name);
    push_lit(&mut out, "-daemonize");
    push_lit(&mut out, "-pidfile");
    let pid = vm.pid_file();
    push_string(&mut out, &pid);
    push_lit(&mut out, "-display");
    push_lit(&mut out, "none");
    push_lit(&mut out, "-serial");
    let serial = vm.serial_log();
    let serial_arg = concat2("file:", serial.as_str());
    push_string(&mut out, &serial_arg);
    push_lit(&mut out, "-m");
    push_string(&mut out, &vm.mem_mb);
    push_lit(&mut out, "-smp");
    push_string(&mut out, &vm.cpus);
    push_lit(&mut out, "-accel");
    push_lit(&mut out, accel);
    push_lit(&mut out, "-cpu");
    push_lit(&mut out, cpu);
    proof {
        assert(strings_view(out@) =~= qemu_head(*vm, accel@, cpu@));
    }
    out
}

fn qemu_machine_args(vm: &VmConfig, efi: &Option<String>) -> (r: Vec<String>)
    ensures
        strings_view(r@) == qemu_machine(*vm, opt_chars(*efi)),
{
    let mut out: Vec<String> = Vec::new();
    let qb = chars_of(vm.qemu_bin.as_str());
    if has_substring(&qb, "aarch64") {
        push_lit(&mut out, "-M");
        push_lit(&mut out, "virt");
        match efi {
            Some(e) => {
                push_lit(&mut out, "-bios");
                push_string(&mut out, e);
            },
            None => {},
        }
    }
    proof {
        assert(strings_view(out@) =~= qemu_machine(*vm, opt_chars(*efi)));
    }
    out
}

fn qemu_storage_args(vm: &VmConfig, seed_iso: bool) -> (r: Vec<String>)
    ensures
        strings_view(r@) == qemu_storage(*vm, seed_iso),
{
    let mut out: Vec<String> = Vec::new();
    push_lit(&mut out, "-drive");
    let disk = vm.disk_img();
    let disk_arg = concat2("if=virtio,format=qcow2,file=", disk.as_str());
    push_string(&mut out, &disk_arg);
    if seed_iso {
        push_lit(&mut out, "-drive");
        let seed = vm.seed_img();
        let seed_arg = concat2("if=virtio,media=cdrom,format=raw,readonly=on,file=", seed.as_str());
        push_string(&mut out, &seed_arg);
    } else {
        push_lit(&mut out, "-smbios");
        let smb = concat3("type=1,serial=ds=nocloud;s=http://10.0.2.2:", vm.seed_port.as_str(), "/");
        push_string(&mut out, &smb);
    }
    push_lit(&mut out, "-netdev");
    let net = concat3("user,id=net0,hostfwd=tcp:127.0.0.1:", vm.ssh_port.as_str(), "-:22");
    push_string(&mut out, &net);
    push_lit(&mut out, "-device");
    push_lit(&mut out, "virtio-net-pci,netdev=net0");
    proof {
        assert(strings_view(out@) =~= qemu_storage(*vm, seed_iso));
    }
    out
}

fn qemu_share_args(vm: &VmConfig) -> (r: Vec<String>)
    ensures
        strings_view(r@) == qemu_shares(*vm),
{
    let mut out: Vec<String> = Vec::new();
    let fsm = chars_of(vm.fs_mode.as_str());
    if eq_str(&fsm, "virtiofs") {
        push_lit(&mut out, "-object");
        let mem = concat3("memory-backend-memfd,id=mem,size=", vm.mem_mb.as_str(), "M,share=on");
        push_string(&mut out, &mem);
        push_lit(&mut out, "-numa");
        push_lit(&mut out, "node,memdev=mem");
        push_lit(&mut out, "-chardev");
        let ws = vm.workspace_sock();
        let a = concat2("socket,id=workspacefs,path=", ws.as_str());
        push_string(&mut out, &a);
        push_lit(&mut out, "-device");
        push_lit(&mut out, "vhost-user-fs-pci,chardev=workspacefs,tag=workspace");
        push_lit(&mut out, "-chardev");
        let ts = vm.target_sock();
        let b = concat2("socket,id=targetfs,path=", ts.as_str());
        push_string(&mut out, &b);
        push_lit(&mut out, "-device");
        push_lit(&mut out, "vhost-user-fs-pci,chardev=targetfs,tag=target");
        push_lit(&mut out, "-chardev");
        let ks = vm.work_sock();
        let c = concat2("socket,id=workfs,path=", ks.as_str());
        push_string(&mut out, &c);
        push_lit(&mut out, "-device");
        push_lit(&mut out, "vhost-user-fs-pci,chardev=workfs,tag=work");
    } else {
        push_lit(&mut out, "-virtfs");
        let a = concat3(
            "local,path=",
            vm.workspace.as_str(),
            ",mount_tag=workspace,security_model=none,multidevs=remap,id=workspace,readonly=on",
        );
        push_string(&mut out, &a);
        push_lit(&mut out, "-virtfs");
        let b = concat3(
            "local,path=",
            vm.target_dir.as_str(),
            ",mount_tag=target,security_model=none,multidevs=remap,id=target,readonly=on",
        );
        push_string(&mut out, &b);
        push_lit(&mut out, "-virtfs");
        let c = concat3(
            "local,path=",
            vm.work_dir.as_str(),
            ",mount_tag=work,security_model=none,multidevs=remap,id=work",
        );
        push_string(&mut out, &c);
    }
    proof {
        assert(strings_view(out@) =~= qemu_shares(*vm));
    }
    out
}

/// The QEMU arguments that boot `vm` with the accelerator `accel` and CPU
/// model `cpu`, the aarch64 firmware `efi` where one was found, and the seed
/// mode recorded in `seed_mode` (`iso` for a CD-ROM, else HTTP).
pub fn qemu_args(vm: &VmConfig, accel: &str, cpu: &str, efi: &Option<String>, seed_mode: &str) -> (r: Vec<String>)
    ensures
        strings_view(r@) == qemu_command(*vm, accel@, cpu@, opt_chars(*efi), trim(seed_mode@) == "iso"@),
{
    let mut out = qemu_head_args(vm, accel, cpu);
    let m = qemu_machine_args(vm, efi);
    append_strings(&mut out, &m);
    let seed_iso = trimmed_is(seed_mode, "iso");
    let st = qemu_storage_args(vm, seed_iso);
    append_strings(&mut out, &st);
    let sh = qemu_share_args(vm);
    append_strings(&mut out, &sh);
    out
}


/// The SSH options and destination shared by every SSH call to `vm`, with
/// the given connect timeout.
pub open spec fn ssh_base(vm: VmConfig) -> Seq<Seq<char>> {
    let d = vm.vm_dir_text();
    seq![
        "-i"@,
        join_path(d, "id_ed25519"@),
        "-o"@,
        "StrictHostKeyChecking=accept-new"@,
        "-o"@,
        "UserKnownHostsFile="@ + join_path(d, "known_hosts"@),
        "-o"@,
        "IdentitiesOnly=yes"@,
    ]
}

/// The `ssh` arguments that run `remote` in `vm`: the remote words joined
/// into one shell-quoted command, when there are any.
pub open spec fn ssh_command(vm: VmConfig, remote: Seq<String>) -> Seq<Seq<char>> {
    ssh_base(vm) + seq![
        "-o"@,
        "ConnectTimeout=5"@,
        "-p"@,
        vm.ssh_port@,
        vm.ssh_user@ + "@127.0.0.1"@,
    ] + if remote.len() > 0 {
        seq![join_words(escaped_words(remote))]
    } else {
        Seq::empty()
    }
}

fn ssh_base_args(vm: &VmConfig) -> (r: Vec<String>)
    ensures
        strings_view(r@) == ssh_base(*vm),
{
    let mut out: Vec<String> = Vec::new();
    push_lit(&mut out, "-i");
    let key = vm.ssh_key();
    push_string(&mut out, &key);
    push_lit(&mut out, "-o");
    push_lit(&mut out, "StrictHostKeyChecking=accept-new");
    push_lit(&mut out, "-o");
    let kh = vm.known_hosts();
    let kh_arg = concat2("UserKnownHostsFile=", kh.as_str());
    push_string(&mut out, &kh_arg);
    push_lit(&mut out, "-o");
    push_lit(&mut out, "IdentitiesOnly=yes");
    proof {
        assert(strings_view(out@) =~= ssh_base(*vm));
    }
    out
}

/// The `ssh` arguments that run the command `remote` in `vm`.
pub fn ssh_args(vm: &VmConfig, remote: &Vec<String>) -> (r: Vec<String>)
    ensures
        strings_view(r@) == ssh_command(*vm, remote@),
{
    let mut out = ssh_base_args(vm);
    let ghost b = strings_view(out@);
    push_lit(&mut out, "-o");
    push_lit(&mut out, "ConnectTimeout=5");
    push_lit(&mut out, "-p");
    push_string(&mut out, &vm.ssh_port);
    let dest = concat2(vm.ssh_user.as_str(), "@127.0.0.1");
    push_string(&mut out, &dest);
    if remote.len() > 0 {
        let joined = shell_join(remote.as_slice());
        push_string(&mut out, &joined);
    }
    proof {
        assert(strings_view(out@) =~= ssh_command(*vm, remote@));
    }
    out
}

/// The `ssh` arguments that probe whether `vm` answers: batch mode, one
/// attempt, a one-second timeout, and verbose logging when asked.
pub open spec fn ssh_probe_command(vm: VmConfig, verbose: bool) -> Seq<Seq<char>> {
    ssh_base(vm) + seq![
        "-o"@,
        "BatchMode=yes"@,
        "-o"@,
        "ConnectionAttempts=1"@,
        "-o"@,
        if verbose { "LogLevel=VERBOSE"@ } else { "LogLevel=ERROR"@ },
        "-o"@,
        "ConnectTimeout=1"@,
        "-p"@,
        vm.ssh_port@,
        vm.ssh_user@ + "@127.0.0.1"@,
        "true"@,
    ]
}

/// The `ssh` arguments that probe whether `vm` answers.
pub fn ssh_probe_args(vm: &VmConfig, verbose: bool) -> (r: Vec<String>)
    ensures
        strings_view(r@) == ssh_probe_command(*vm, verbose),
{
    let mut out = ssh_base_args(vm);
    push_lit(&mut out, "-o");
    push_lit(&mut out, "BatchMode=yes");
    push_lit(&mut out, "-o");
    push_lit(&mut out, "ConnectionAttempts=1");
    push_lit(&mut out, "-o");
    if verbose {
        push_lit(&mut out, "LogLevel=VERBOSE");
    } else {
        push_lit(&mut out, "LogLevel=ERROR");
    }
    push_lit(&mut out, "-o");
    push_lit(&mut out, "ConnectTimeout=1");
    push_lit(&mut out, "-p");
    push_string(&mut out, &vm.ssh_port);
    let dest = concat2(vm.ssh_user.as_str(), "@127.0.0.1");
    push_string(&mut out, &dest);
    push_lit(&mut out, "true");
    proof {
        assert(strings_view(out@) =~= ssh_probe_command(*vm, verbose));
    }
    out
}

/// The `ssh` arguments that run the user's command `cmd` in `vm`; an empty
/// command is an error.
pub fn ssh_cmd_cli(vm: &VmConfig, cmd: &Vec<String>) -> (r: Result<Vec<String>, String>)
    ensures
        cmd@.len() == 0 ==> (r matches Err(m) && m@ == "ssh: missing remote command"@),
        cmd@.len() > 0 ==> (r matches Ok(a) && strings_view(a@) == ssh_command(*vm, cmd@)),
{
    if cmd.len() == 0 {
        return Err("ssh: missing remote command".to_owned());
    }
    Ok(ssh_args(vm, cmd))
}

/// The mount options of the 9p shares.
pub open spec fn mnt_opts() -> Seq<char> {
    "trans=virtio,version=9p2000.L,msize=262144"@
}

/// The shell command that mounts the share `tag` at `dir` unless something is
/// mounted there: with the preferred file system first and the other as a
/// fallback, read-only when `ro`.
pub open spec fn mount_line(virtiofs_first: bool, tag: Seq<char>, dir: Seq<char>, ro: bool) -> Seq<char> {
    let v = "mount -t virtiofs "@ + (if ro { "-o ro "@ } else { Seq::empty() }) + tag + " "@ + dir;
    let p = "mount -t 9p -o "@ + mnt_opts() + (if ro { ",ro"@ } else { Seq::empty() }) + " "@ + tag + " "@ + dir;
    "mountpoint -q "@ + dir + " || "@ + if virtiofs_first {
        v + " || "@ + p
    } else {
        p + " || "@ + v
    }
}

/// The guest commands that mount `/app`, `/target` (read-only) and `/work`
/// and check them, in order, for the file-system mode `fs_mode`.
pub open spec fn guest_mount_commands(fs_mode: Seq<char>) -> Seq<Seq<Seq<char>>> {
    let vf = fs_mode == "virtiofs"@;
    seq![
        seq!["sudo"@, "mkdir"@, "-p"@, "/app"@, "/target"@, "/work"@],
        seq![
            "sudo"@,
            "sh"@,
            "-lc"@,
            "sed -i '/[[:space:]]\\/app[[:space:]].*9p/d; /[[:space:]]\\/target[[:space:]].*9p/d; /[[:space:]]\\/work[[:space:]].*9p/d' /etc/fstab || true"@,
        ],
        seq!["sudo"@, "sh"@, "-lc"@, mount_line(vf, "workspace"@, "/app"@, true)],
        seq!["sudo"@, "sh"@, "-lc"@, mount_line(vf, "target"@, "/target"@, true)],
        seq!["sudo"@, "sh"@, "-lc"@, mount_line(vf, "work"@, "/work"@, false)],
        seq!["sudo"@, "mount"@, "-o"@, "remount,ro"@, "/app"@],
        seq!["sudo"@, "mount"@, "-o"@, "remount,ro"@, "/target"@],
        seq!["sudo"@, "mount"@, "-o"@, "remount,rw"@, "/work"@],
        seq!["test"@, "-f"@, "/app/Cargo.toml"@],
        seq!["test"@, "-d"@, "/target"@],
        seq!["test"@, "-d"@, "/work"@],
    ]
}

fn mount_cmd(virtiofs_first: bool, tag: &str, dir: &str, ro: bool) -> (r: Vec<String>)
    ensures
        strings_view(r@) == seq!["sudo"@, "sh"@, "-lc"@, mount_line(virtiofs_first, tag@, dir@, ro)],
{
    let mut v: Vec<char> = Vec::new();
    let mut vf: Vec<char> = Vec::new();
    push_str(&mut vf, "mount -t virtiofs ");
    if ro {
        push_str(&mut vf, "-o ro ");
    }
    push_str(&mut vf, tag);
    push_str(&mut vf, " ");
    push_str(&mut vf, dir);
    let mut p9: Vec<char> = Vec::new();
    push_str(&mut p9, "mount -t 9p -o ");
    push_str(&mut p9, "trans=virtio,version=9p2000.L,msize=262144");
    if ro {
        push_str(&mut p9, ",ro");
    }
    push_str(&mut p9, " ");
    push_str(&mut p9, tag);
    push_str(&mut p9, " ");
    push_str(&mut p9, dir);
    push_str(&mut v, "mountpoint -q ");
    push_str(&mut v, dir);
    push_str(&mut v, " || ");
    if virtiofs_first {
        push_chars(&mut v, &vf);
        push_str(&mut v, " || ");
        push_chars(&mut v, &p9);
    } else {
        push_chars(&mut v, &p9);
        push_str(&mut v, " || ");
        push_chars(&mut v, &vf);
    }
    proof {
        assert(v@ =~= mount_line(virtiofs_first, tag@, dir@, ro));
    }
    let line = into_string(v);
    let mut out: Vec<String> = Vec::new();
    push_lit(&mut out, "sudo");
    push_lit(&mut out, "sh");
    push_lit(&mut out, "-lc");
    push_string(&mut out, &line);
    out
}

fn words(ws: &[&str]) -> (r: Vec<String>)
    ensures
        r@.len() == ws@.len(),
        forall|i: int| 0 <= i < ws@.len() ==> #[trigger] r@[i]@ == ws@[i]@,
{
    let mut out: Vec<String> = Vec::new();
    let mut i: usize = 0;
    while i < ws.len()
        invariant
            i <= ws.len(),
            out@.len() == i,
            forall|j: int| 0 <= j < i ==> #[trigger] out@[j]@ == ws@[j]@,
        decreases ws.len() - i,
    {
        out.push(ws[i].to_owned());
        i = i + 1;
    }
    out
}

/// The views of a list of commands.
pub open spec fn commands_view(cmds: Seq<Vec<String>>) -> Seq<Seq<Seq<char>>> {
    cmds.map_values(|c: Vec<String>| strings_view(c@))
}

/// The guest commands that mount and check the shared directories.
pub fn guest_mount_cmds(fs_mode: &str) -> (r: Vec<Vec<String>>)
    ensures
        commands_view(r@) == guest_mount_commands(fs_mode@),
{
    let fm = chars_of(fs_mode);
    let vf = eq_str(&fm, "virtiofs");
    let mut out: Vec<Vec<String>> = Vec::new();
    let c0 = words(&["sudo", "mkdir", "-p", "/app", "/target", "/work"]);
    let c1 = words(&[
        "sudo",
        "sh",
        "-lc",
        "sed -i '/[[:space:]]\\/app[[:space:]].*9p/d; /[[:space:]]\\/target[[:space:]].*9p/d; /[[:space:]]\\/work[[:space:]].*9p/d' /etc/fstab || true",
    ]);
    let c2 = mount_cmd(vf, "workspace", "/app", true);
    let c3 = mount_cmd(vf, "target", "/target", true);
    let c4 = mount_cmd(vf, "work", "/work", false);
    let c5 = words(&["sudo", "mount", "-o", "remount,ro", "/app"]);
    let c6 = words(&["sudo", "mount", "-o", "remount,ro", "/target"]);
    let c7 = words(&["sudo", "mount", "-o", "remount,rw", "/work"]);
    let c8 = words(&["test", "-f", "/app/Cargo.toml"]);
    let c9 = words(&["test", "-d", "/target"]);
    let c10 = words(&["test", "-d", "/work"]);
    proof {
        assert(strings_view(c0@) =~= seq!["sudo"@, "mkdir"@, "-p"@, "/app"@, "/target"@, "/work"@]);
        assert(strings_view(c1@) =~= seq![
            "sudo"@,
            "sh"@,
            "-lc"@,
            "sed -i '/[[:space:]]\\/app[[:space:]].*9p/d; /[[:space:]]\\/target[[:space:]].*9p/d; /[[:space:]]\\/work[[:space:]].*9p/d' /etc/fstab || true"@,
        ]);
        assert(strings_view(c5@) =~= seq!["sudo"@, "mount"@, "-o"@, "remount,ro"@, "/app"@]);
        assert(strings_view(c6@) =~= seq!["sudo"@, "mount"@, "-o"@, "remount,ro"@, "/target"@]);
        assert(strings_view(c7@) =~= seq!["sudo"@, "mount"@, "-o"@, "remount,rw"@, "/work"@]);
        assert(strings_view(c8@) =~= seq!["test"@, "-f"@, "/app/Cargo.toml"@]);
        assert(strings_view(c9@) =~= seq!["test"@, "-d"@, "/target"@]);
        assert(strings_view(c10@) =~= seq!["test"@, "-d"@, "/work"@]);
    }
    out.push(c0);
    out.push(c1);
    out.push(c2);
    out.push(c3);
    out.push(c4);
    out.push(c5);
    out.push(c6);
    out.push(c7);
    out.push(c8);
    out.push(c9);
    out.push(c10);
    proof {
        assert(commands_view(out@) =~= guest_mount_commands(fs_mode@));
    }
    out
}

/// What the runtime file of a started VM records.
pub open spec fn runtime_text(vm: VmConfig) -> Seq<char> {
    "workspace="@ + vm.workspace@ + "\ntarget_dir="@ + vm.target_dir@ + "\nwork_dir="@ + vm.work_dir@
        + "\nfs_mode="@ + vm.fs_mode@ + "\nssh_port="@ + vm.ssh_port@ + "\n"@
}

/// The content of the runtime file of a started VM.
pub fn runtime_env(vm: &VmConfig) -> (r: String)
    ensures
        r@ == runtime_text(*vm),
{
    let mut v: Vec<char> = Vec::new();
    push_str(&mut v, "workspace=");
    push_str(&mut v, vm.workspace.as_str());
    push_str(&mut v, "\ntarget_dir=");
    push_str(&mut v, vm.target_dir.as_str());
    push_str(&mut v, "\nwork_dir=");
    push_str(&mut v, vm.work_dir.as_str());
    push_str(&mut v, "\nfs_mode=");
    push_str(&mut v, vm.fs_mode.as_str());
    push_str(&mut v, "\nssh_port=");
    push_str(&mut v, vm.ssh_port.as_str());
    push_str(&mut v, "\n");
    into_string(v)
}

/// The cloud-init user data: the user `ssh_user` with passwordless sudo and
/// the key `pub_key` (trimmed), the kernel modules to load, and the mount
/// points to create.
pub open spec fn user_data_text(ssh_user: Seq<char>, pub_key: Seq<char>) -> Seq<char> {
    "#cloud-config\nusers:\n  - default\n  - name: "@ + ssh_user
        + "\n    shell: /bin/bash\n    sudo: ALL=(ALL) NOPASSWD:ALL\n    groups: [sudo]\n    ssh_authorized_keys:\n      - "@
        + trim(pub_key)
        + "\nssh_pwauth: false\nwrite_files:\n  - path: /etc/modules-load.d/patchbay.conf\n    permissions: \"0644\"\n    content: |\n      sch_netem\n      virtiofs\nruncmd:\n  - modprobe sch_netem || true\n  - modprobe virtiofs || true\n  - modprobe 9p || true\n  - modprobe 9pnet_virtio || true\n  - mkdir -p /app /target /work\n"@
}

/// The cloud-init user data for `ssh_user` with the public key `pub_key`.
pub fn cloud_init_user_data(ssh_user: &str, pub_key: &str) -> (r: String)
    ensures
        r@ == user_data_text(ssh_user@, pub_key@),
{
    let key = chars_of(pub_key);
    let tk = trim_chars(&key);
    let mut v: Vec<char> = Vec::new();
    push_str(&mut v, "#cloud-config\nusers:\n  - default\n  - name: ");
    push_str(&mut v, ssh_user);
    push_str(
        &mut v,
        "\n    shell: /bin/bash\n    sudo: ALL=(ALL) NOPASSWD:ALL\n    groups: [sudo]\n    ssh_authorized_keys:\n      - ",
    );
    push_chars(&mut v, &tk);
    push_str(
        &mut v,
        "\nssh_pwauth: false\nwrite_files:\n  - path: /etc/modules-load.d/patchbay.conf\n    permissions: \"0644\"\n    content: |\n      sch_netem\n      virtiofs\nruncmd:\n  - modprobe sch_netem || true\n  - modprobe virtiofs || true\n  - modprobe 9p || true\n  - modprobe 9pnet_virtio || true\n  - mkdir -p /app /target /work\n",
    );
    into_string(v)
}

/// The cloud-init meta data of the VM `vm_name`.
pub fn cloud_init_meta_data(vm_name: &str) -> (r: String)
    ensures
        r@ == "instance-id: "@ + vm_name@ + "\nlocal-hostname: "@ + vm_name@ + "\n"@,
{
    let mut v: Vec<char> = Vec::new();
    push_str(&mut v, "instance-id: ");
    push_str(&mut v, vm_name);
    push_str(&mut v, "\nlocal-hostname: ");
    push_str(&mut v, vm_name);
    push_str(&mut v, "\n");
    into_string(v)
}

/// The cloud-init network configuration: DHCP on the virtio NIC.
pub const NETWORK_CONFIG: &'static str = "version: 2\nethernets:\n  id0:\n    match:\n      driver: virtio_net\n    dhcp4: true\n";

/// Some line of `lines` is exactly `word` once trimmed.
pub open spec fn has_trimmed_line(ls: Seq<Seq<char>>, word: Seq<char>) -> bool {
    exists|i: int| 0 <= i < ls.len() && trim(#[trigger] ls[i]) == word
}

/// The accelerator and CPU model: KVM on Linux when `/dev/kvm` exists, HVF on
/// macOS when QEMU lists it, else TCG with the `max` model.
pub open spec fn accel_choice(os: Seq<char>, kvm: bool, accel_help: Option<Seq<char>>) -> (Seq<char>, Seq<char>) {
    if os == "linux"@ && kvm {
        ("kvm"@, "host"@)
    } else if os == "macos"@ && (accel_help matches Some(h) && has_trimmed_line(crate::text::lines(h), "hvf"@)) {
        ("hvf"@, "host"@)
    } else {
        ("tcg"@, "max"@)
    }
}

/// Hardware acceleration is used where the host offers it: KVM on Linux with
/// `/dev/kvm`, HVF on macOS when QEMU lists it, and TCG emulation otherwise
/// (on any other system, on Linux without KVM, on macOS without HVF). A
/// hardware accelerator runs the host's CPU model, emulation the `max` one.
pub proof fn law_accelerator_follows_host(os: Seq<char>, kvm: bool, help: Option<Seq<char>>)
    ensures
        os == "linux"@ && kvm ==> accel_choice(os, kvm, help) == ("kvm"@, "host"@),
        os == "linux"@ && !kvm ==> accel_choice(os, kvm, help) == ("tcg"@, "max"@),
        os != "linux"@ && os != "macos"@ ==> accel_choice(os, kvm, help) == ("tcg"@, "max"@),
        os == "macos"@ && help is None ==> accel_choice(os, kvm, help) == ("tcg"@, "max"@),
        os == "macos"@ && (help matches Some(h) && has_trimmed_line(crate::text::lines(h), "hvf"@))
            ==> accel_choice(os, kvm, help) == ("hvf"@, "host"@),
        (accel_choice(os, kvm, help).1 == "max"@) == (accel_choice(os, kvm, help).0 == "tcg"@),
{
    reveal_strlit("linux");
    reveal_strlit("macos");
    reveal_strlit("max");
    reveal_strlit("host");
    reveal_strlit("tcg");
    reveal_strlit("kvm");
    reveal_strlit("hvf");
    assert("linux"@ != "macos"@) by { assert("linux"@[0] != "macos"@[0]); }
    assert("max"@ != "host"@) by { assert("max"@.len() != "host"@.len()); }
    assert("kvm"@ != "tcg"@) by { assert("kvm"@[0] != "tcg"@[0]); }
    assert("hvf"@ != "tcg"@) by { assert("hvf"@[0] != "tcg"@[0]); }
}

fn has_hvf_line(h: &str) -> (b: bool)
    ensures
        b == has_trimmed_line(crate::text::lines(h@), "hvf"@),
{
    let hc = chars_of(h);
    let ls = crate::text::lines_of(&hc);
    let mut i: usize = 0;
    while i < ls.len()
        invariant
            i <= ls.len(),
            ls@.len() == crate::text::lines(h@).len(),
            forall|j: int| 0 <= j < ls@.len() ==> #[trigger] ls@[j]@ == crate::text::lines(h@)[j],
            forall|j: int| 0 <= j < i ==> trim(#[trigger] crate::text::lines(h@)[j]) != "hvf"@,
        decreases ls.len() - i,
    {
        let t = trim_chars(&ls[i]);
        if eq_str(&t, "hvf") {
            proof {
                assert(trim(crate::text::lines(h@)[i as int]) == "hvf"@);
            }
            return true;
        }
        i = i + 1;
    }
    false
}

/// Picks the accelerator on the host OS `os`, given whether `/dev/kvm` exists
/// and, on macOS, what `qemu -accel help` printed when it succeeded.
pub fn detect_accel(os: &str, kvm: bool, accel_help: &Option<String>) -> (r: (String, String))
    ensures
        (r.0@, r.1@) == accel_choice(os@, kvm, opt_chars(*accel_help)),
{
    proof {
        reveal_strlit("linux");
        reveal_strlit("macos");
    }
    let oc = chars_of(os);
    if eq_str(&oc, "linux") && kvm {
        return ("kvm".to_owned(), "host".to_owned());
    }
    if eq_str(&oc, "macos") {
        match accel_help {
            Some(h) => {
                if has_hvf_line(h.as_str()) {
                    return ("hvf".to_owned(), "host".to_owned());
                }
            },
            None => {},
        }
    }
    ("tcg".to_owned(), "max".to_owned())
}

/// The places to look for virtiofsd, in order: the configured binary, then
/// the usual install locations.
pub open spec fn virtiofsd_places(configured: Option<Seq<char>>) -> Seq<Seq<char>> {
    (match configured {
        Some(b) => seq![b],
        None => Seq::empty(),
    }) + seq![
        "/usr/lib/virtiofsd"@,
        "/usr/libexec/virtiofsd"@,
        "/usr/lib/qemu/virtiofsd"@,
        "/usr/bin/virtiofsd"@,
        "/opt/homebrew/libexec/virtiofsd"@,
    ]
}

/// Where to look for virtiofsd, in order; the first that exists is used.
pub fn virtiofsd_candidates(vm: &VmConfig) -> (r: Vec<String>)
    ensures
        strings_view(r@) == virtiofsd_places(opt_chars(vm.virtiofsd_bin)),
{
    let mut out: Vec<String> = Vec::new();
    match &vm.virtiofsd_bin {
        Some(b) => push_string(&mut out, b),
        None => {},
    }
    push_lit(&mut out, "/usr/lib/virtiofsd");
    push_lit(&mut out, "/usr/libexec/virtiofsd");
    push_lit(&mut out, "/usr/lib/qemu/virtiofsd");
    push_lit(&mut out, "/usr/bin/virtiofsd");
    push_lit(&mut out, "/opt/homebrew/libexec/virtiofsd");
    proof {
        assert(strings_view(out@) =~= virtiofsd_places(opt_chars(vm.virtiofsd_bin)));
    }
    out
}

/// Chooses the file system of the shares: virtiofs with the virtiofsd found
/// (`found`), else 9p with the configured binary kept.
pub fn select_fs_mode(vm: &mut VmConfig, found: Option<String>)
    ensures
        match found {
            Some(b) => final(vm).fs_mode@ == "virtiofs"@ && opt_chars(final(vm).virtiofsd_bin) == Some(b@),
            None => final(vm).fs_mode@ == "9p"@ && final(vm).virtiofsd_bin == old(vm).virtiofsd_bin,
        },
        final(vm).vm_name == old(vm).vm_name,
        final(vm).image_url == old(vm).image_url,
        final(vm).mem_mb == old(vm).mem_mb,
        final(vm).cpus == old(vm).cpus,
        final(vm).disk_gb == old(vm).disk_gb,
        final(vm).ssh_user == old(vm).ssh_user,
        final(vm).qemu_bin == old(vm).qemu_bin,
        final(vm).ssh_port == old(vm).ssh_port,
        final(vm).seed_port == old(vm).seed_port,
        final(vm).workspace == old(vm).workspace,
        final(vm).target_dir == old(vm).target_dir,
        final(vm).work_dir == old(vm).work_dir,
        final(vm).state_root == old(vm).state_root,
        final(vm).shared_image_dir == old(vm).shared_image_dir,
        final(vm).recreate == old(vm).recreate,
{
    match found {
        Some(b) => {
            vm.fs_mode = "virtiofs".to_owned();
            vm.virtiofsd_bin = Some(b);
        },
        None => {
            vm.fs_mode = "9p".to_owned();
        },
    }
}

/// The arguments of virtiofsd sharing `shared_dir` on `socket`: read-only
/// when `readonly`, else mapping the guest's ids onto the owner `uid`/`gid`.
pub open spec fn virtiofsd_command(shared_dir: Seq<char>, socket: Seq<char>, readonly: bool, uid: u32, gid: u32) -> Seq<Seq<char>> {
    seq![
        "--shared-dir"@,
        shared_dir,
        "--socket-path"@,
        socket,
        "--cache"@,
        "auto"@,
        "--sandbox"@,
        "none"@,
        "--inode-file-handles=never"@,
    ] + if readonly {
        seq!["--readonly"@]
    } else {
        seq![
            "--translate-uid"@,
            "squash-guest:0:"@ + crate::text::decimal(uid as nat) + ":65536"@,
            "--translate-gid"@,
            "squash-guest:0:"@ + crate::text::decimal(gid as nat) + ":65536"@,
        ]
    }
}

fn squash(id: u32) -> (r: String)
    ensures
        r@ == "squash-guest:0:"@ + crate::text::decimal(id as nat) + ":65536"@,
{
    let mut v: Vec<char> = Vec::new();
    push_str(&mut v, "squash-guest:0:");
    crate::text::push_decimal(&mut v, id as u64);
    push_str(&mut v, ":65536");
    into_string(v)
}

/// The arguments of a virtiofsd for one share.
pub fn virtiofsd_args(shared_dir: &str, socket: &str, readonly: bool, uid: u32, gid: u32) -> (r: Vec<String>)
    ensures
        strings_view(r@) == virtiofsd_command(shared_dir@, socket@, readonly, uid, gid),
{
    let mut out: Vec<String> = Vec::new();
    push_lit(&mut out, "--shared-dir");
    push_lit(&mut out, shared_dir);
    push_lit(&mut out, "--socket-path");
    push_lit(&mut out, socket);
    push_lit(&mut out, "--cache");
    push_lit(&mut out, "auto");
    push_lit(&mut out, "--sandbox");
    push_lit(&mut out, "none");
    push_lit(&mut out, "--inode-file-handles=never");
    if readonly {
        push_lit(&mut out, "--readonly");
    } else {
        push_lit(&mut out, "--translate-uid");
        let u = squash(uid);
        push_string(&mut out, &u);
        push_lit(&mut out, "--translate-gid");
        let g = squash(gid);
        push_string(&mut out, &g);
    }
    proof {
        assert(strings_view(out@) =~= virtiofsd_command(shared_dir@, socket@, readonly, uid, gid));
    }
    out
}

} // verus!
