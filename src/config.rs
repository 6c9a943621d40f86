//! The settings an application VM is created with.
use vstd::prelude::*;
use crate::text::string_from_chars;

verus! {

/// How the VM's display reaches the host.
#[derive(Debug, Clone, Copy, PartialEq, Eq, Structural)]
pub enum GraphicsBackend {
    /// Hardware accelerated.
    VirtioGpu,
    /// The SPICE protocol.
    QxlSpice,
    /// Fallback.
    VncOnly,
}

/// The VM's network attachment.
#[derive(Debug, Clone, PartialEq, Eq)]
pub enum NetworkMode {
    Nat,
    /// No network at all.
    Disconnected,
    Bridge(String),
    VpnOnly,
}

#[derive(Debug, Clone, PartialEq, Eq)]
pub struct VpnConfig {
    pub provider: String,
    pub config_path: String,
    pub credentials_path: Option<String>,
}

#[derive(Debug, Clone, PartialEq, Eq)]
pub struct AppVMConfig {
    pub name: String,
    pub memory_mb: u64,
    pub vcpus: u32,
    pub disk_size_gb: u64,
    pub vm_dir: String,
    pub system_packages: Vec<String>,
    pub flatpak_packages: Vec<String>,
    /// Commands run when the VM's session starts.
    pub auto_launch_apps: Vec<String>,
    pub graphics_backend: GraphicsBackend,
    pub enable_clipboard: bool,
    pub enable_audio: bool,
    pub enable_usb_passthrough: bool,
    pub enable_auto_login: bool,
    pub network_mode: NetworkMode,
    pub firewall_rules: Vec<String>,
    pub vpn_config: Option<VpnConfig>,
    pub user_password: String,
}

pub open spec fn string_views(v: Seq<String>) -> Seq<Seq<char>> {
    v.map_values(|s: String| s@)
}

/// The packages every VM gets: window manager, X server and tools, the window
/// and clipboard utilities the guest agent relies on, audio, a terminal and git.
pub open spec fn default_system_packages() -> Seq<Seq<char>> {
    seq![
        "i3"@,
        "i3status"@,
        "i3lock"@,
        "dmenu"@,
        "rofi"@,
        "xorg-x11-server-Xorg"@,
        "xorg-x11-xinit"@,
        "xset"@,
        "xrandr"@,
        "wmctrl"@,
        "xwininfo"@,
        "pipewire"@,
        "wl-clipboard"@,
        "spice-vdagent"@,
        "kitty"@,
        "git"@,
    ]
}

/// Outbound DNS, HTTP and HTTPS.
pub open spec fn default_firewall_rules() -> Seq<Seq<char>> {
    seq![
        "OUTPUT -p udp --dport 53 -j ACCEPT"@,
        "OUTPUT -p tcp --dport 53 -j ACCEPT"@,
        "OUTPUT -p tcp --dport 80 -j ACCEPT"@,
        "OUTPUT -p tcp --dport 443 -j ACCEPT"@,
    ]
}

/// One start command per Flatpak package.
pub open spec fn launch_commands(pkgs: Seq<Seq<char>>) -> Seq<Seq<char>> {
    pkgs.map_values(|p: Seq<char>| "flatpak run "@ + p)
}

pub open spec fn hex_chars() -> Seq<char> {
    seq!['0', '1', '2', '3', '4', '5', '6', '7', '8', '9', 'a', 'b', 'c', 'd', 'e', 'f']
}

/// Lower-case hexadecimal digits of `n`, without leading zeros.
pub open spec fn lower_hex(n: nat) -> Seq<char>
    decreases n,
{
    if n < 16 {
        seq![hex_chars()[n as int]]
    } else {
        lower_hex(n / 16).push(hex_chars()[(n % 16) as int])
    }
}

/// `vm-` and the hash in lower-case hexadecimal, cut to twelve characters.
pub open spec fn password_text(h: u64) -> Seq<char> {
    let full = "vm-"@ + lower_hex(h as nat);
    if full.len() <= 12 {
        full
    } else {
        full.take(12)
    }
}

fn lower_hex_digits(n: u64) -> (r: Vec<char>)
    ensures
        r@ == lower_hex(n as nat),
    decreases n,
{
    let digits = vec!['0', '1', '2', '3', '4', '5', '6', '7', '8', '9', 'a', 'b', 'c', 'd', 'e', 'f'];
    assert(digits@ =~= hex_chars());
    if n < 16 {
        vec![digits[n as usize]]
    } else {
        let mut v = lower_hex_digits(n / 16);
        v.push(digits[(n % 16) as usize]);
        v
    }
}

/// The password made from a hash value.
pub fn password_from_hash(h: u64) -> (r: String)
    ensures
        r@ == password_text(h),
{
    let mut v = vec!['v', 'm', '-'];
    let mut digits = lower_hex_digits(h);
    proof {
        reveal_strlit("vm-");
    }
    assert(v@ =~= "vm-"@);
    v.append(&mut digits);
    if v.len() > 12 {
        v.truncate(12);
    }
    string_from_chars(v.as_slice())
}

/// Relies on `SystemTime::now` and `SystemTime::duration_since`: the time since
/// the Unix epoch in nanoseconds, `None` for a clock set before it.
#[verifier::external_body]
fn nanos_since_epoch() -> (r: Option<u128>) {
    std::time::SystemTime::now().duration_since(std::time::UNIX_EPOCH).ok().map(|d| d.as_nanos())
}

/// Relies on `DefaultHasher`: the hash of a `u128` as its `Hash` impl feeds it.
#[verifier::external_body]
fn hash_nanos(v: u128) -> (r: u64) {
    let mut hasher = std::collections::hash_map::DefaultHasher::new();
    std::hash::Hash::hash(&v, &mut hasher);
    std::hash::Hasher::finish(&hasher)
}

/// A fresh password derived from the current time; a clock set before the Unix
/// epoch counts as zero.
pub fn generate_password() -> (r: String)
    ensures
        exists|h: u64| r@ == password_text(h),
{
    let nanos = match nanos_since_epoch() {
        Some(n) => n,
        None => 0,
    };
    let h = hash_nanos(nanos);
    password_from_hash(h)
}

fn strings_from(items: &[&str]) -> (r: Vec<String>)
    ensures
        string_views(r@) == items@.map_values(|s: &str| s@),
{
    let mut out: Vec<String> = Vec::new();
    let mut i: usize = 0;
    while i < items.len()
        invariant
            i <= items@.len(),
            string_views(out@) == items@.map_values(|s: &str| s@).take(i as int),
        decreases items.len() - i,
    {
        let s = String::from_str(items[i]);
        assert(string_views(out@.push(s)) =~= string_views(out@).push(s@));
        out.push(s);
        assert(items@.map_values(|s: &str| s@).take(i + 1) =~= items@.map_values(|s: &str| s@).take(
            i as int,
        ).push(items@[i as int]@));
        i = i + 1;
    }
    assert(items@.map_values(|s: &str| s@).take(i as int) =~= items@.map_values(|s: &str| s@));
    out
}

impl AppVMConfig {
    /// A configuration with the default packages followed by `system_packages`,
    /// one start command per Flatpak package, NAT networking with outbound DNS
    /// and web traffic, clipboard, audio and auto-login on, USB passthrough off,
    /// and a fresh password.
    pub fn new(
        name: String,
        memory_mb: u64,
        vcpus: u32,
        disk_size_gb: u64,
        system_packages: Vec<String>,
        flatpak_packages: Vec<String>,
    ) -> (r: Self)
        ensures
            r.name@ == name@,
            r.memory_mb == memory_mb,
            r.vcpus == vcpus,
            r.disk_size_gb == disk_size_gb,
            r.vm_dir@ == "/var/lib/libvirt/images"@,
            string_views(r.system_packages@) == default_system_packages() + string_views(
                system_packages@,
            ),
            string_views(r.flatpak_packages@) == string_views(flatpak_packages@),
            string_views(r.auto_launch_apps@) == launch_commands(string_views(flatpak_packages@)),
            r.graphics_backend == GraphicsBackend::VirtioGpu,
            r.enable_clipboard,
            r.enable_audio,
            !r.enable_usb_passthrough,
            r.enable_auto_login,
            r.network_mode is Nat,
            string_views(r.firewall_rules@) == default_firewall_rules(),
            r.vpn_config is None,
            exists|h: u64| r.user_password@ == password_text(h),
    {
        let ghost user = string_views(system_packages@);
        let mut packages = strings_from(
            &[
                "i3",
                "i3status",
                "i3lock",
                "dmenu",
                "rofi",
                "xorg-x11-server-Xorg",
                "xorg-x11-xinit",
                "xset",
                "xrandr",
                "wmctrl",
                "xwininfo",
                "pipewire",
                "wl-clipboard",
                "spice-vdagent",
                "kitty",
                "git",
            ],
        );
        assert(string_views(packages@) =~= default_system_packages());
        let mut extra = system_packages;
        let ghost before = packages@;
        packages.append(&mut extra);
        assert(string_views(packages@) =~= string_views(before) + user);
        let mut auto_launch_apps: Vec<String> = Vec::new();
        let mut i: usize = 0;
        while i < flatpak_packages.len()
            invariant
                i <= flatpak_packages@.len(),
                string_views(auto_launch_apps@) == launch_commands(
                    string_views(flatpak_packages@),
                ).take(i as int),
            decreases flatpak_packages.len() - i,
        {
            let cmd = String::from_str("flatpak run ").concat(flatpak_packages[i].as_str());
            assert(string_views(auto_launch_apps@.push(cmd)) =~= string_views(auto_launch_apps@).push(
                cmd@,
            ));
            auto_launch_apps.push(cmd);
            assert(launch_commands(string_views(flatpak_packages@)).take(i + 1) =~= launch_commands(
                string_views(flatpak_packages@),
            ).take(i as int).push("flatpak run "@ + flatpak_packages@[i as int]@));
            i = i + 1;
        }
        assert(launch_commands(string_views(flatpak_packages@)).take(i as int) =~= launch_commands(
            string_views(flatpak_packages@),
        ));
        let firewall_rules = strings_from(
            &[
                "OUTPUT -p udp --dport 53 -j ACCEPT",
                "OUTPUT -p tcp --dport 53 -j ACCEPT",
                "OUTPUT -p tcp --dport 80 -j ACCEPT",
                "OUTPUT -p tcp --dport 443 -j ACCEPT",
            ],
        );
        assert(string_views(firewall_rules@) =~= default_firewall_rules());
        AppVMConfig {
            name,
            memory_mb,
            vcpus,
            disk_size_gb,
            vm_dir: String::from_str("/var/lib/libvirt/images"),
            system_packages: packages,
            flatpak_packages,
            auto_launch_apps,
            graphics_backend: GraphicsBackend::VirtioGpu,
            enable_clipboard: true,
            enable_audio: true,
            enable_usb_passthrough: false,
            enable_auto_login: true,
            network_mode: NetworkMode::Nat,
            firewall_rules,
            vpn_config: None,
            user_password: generate_password(),
        }
    }
}

} // verus!
