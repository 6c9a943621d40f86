use vm_provisioner::config::{
    generate_password, password_from_hash, AppVMConfig, GraphicsBackend, NetworkMode,
};
use vm_provisioner::provisioner::AppVMProvisioner;

#[test]
fn password_from_hash_values() {
    assert_eq!(password_from_hash(0), "vm-0");
    assert_eq!(password_from_hash(0xdeadbeef), "vm-deadbeef");
    assert_eq!(password_from_hash(0x1234567890abcdef), "vm-123456789");
    assert_eq!(password_from_hash(u64::MAX), "vm-fffffffff");
}

#[test]
fn generated_password_shape() {
    let p = generate_password();
    assert!(p.starts_with("vm-"));
    assert!(p.len() > 3 && p.len() <= 12);
    assert!(p[3..].chars().all(|c| c.is_ascii_hexdigit() && !c.is_ascii_uppercase()));
}

#[test]
fn new_config_defaults() {
    let c = AppVMConfig::new(
        "work".to_string(),
        4096,
        2,
        20,
        vec!["vim".to_string()],
        vec!["org.mozilla.firefox".to_string(), "org.gimp.GIMP".to_string()],
    );
    assert_eq!(c.name, "work");
    assert_eq!((c.memory_mb, c.vcpus, c.disk_size_gb), (4096, 2, 20));
    assert_eq!(c.vm_dir, "/var/lib/libvirt/images");
    assert_eq!(c.system_packages.len(), 17);
    assert_eq!(c.system_packages[0], "i3");
    assert_eq!(c.system_packages[10], "xwininfo");
    assert_eq!(c.system_packages[15], "git");
    assert_eq!(c.system_packages[16], "vim");
    assert_eq!(c.flatpak_packages, vec!["org.mozilla.firefox".to_string(), "org.gimp.GIMP".to_string()]);
    assert_eq!(
        c.auto_launch_apps,
        vec!["flatpak run org.mozilla.firefox".to_string(), "flatpak run org.gimp.GIMP".to_string()]
    );
    assert_eq!(c.graphics_backend, GraphicsBackend::VirtioGpu);
    assert!(c.enable_clipboard && c.enable_audio && c.enable_auto_login);
    assert!(!c.enable_usb_passthrough);
    assert_eq!(c.network_mode, NetworkMode::Nat);
    assert_eq!(c.firewall_rules.len(), 4);
    assert_eq!(c.firewall_rules[3], "OUTPUT -p tcp --dport 443 -j ACCEPT");
    assert!(c.vpn_config.is_none());
    assert!(c.user_password.starts_with("vm-"));
}

#[test]
fn provisioner_keeps_config() {
    let c = AppVMConfig::new("a".to_string(), 1, 1, 1, vec![], vec![]);
    assert!(c.auto_launch_apps.is_empty());
    let p = AppVMProvisioner::new(c.clone());
    assert_eq!(p.config(), &c);
}
