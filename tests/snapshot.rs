use vm_provisioner::snapshot::{
    get_app_name_from_title, parse_wmctrl_output, parse_xwininfo_line, parse_xwininfo_output,
};

#[test]
fn xwininfo_line_fields() {
    let r = parse_xwininfo_line(
        "     0x1c00001 \"LibreWolf\": (\"librewolf\" \"LibreWolf\")  800x600+100+50  +100+50",
    )
    .unwrap();
    assert_eq!(r.id, 0x1c00001);
    assert_eq!(r.title, "LibreWolf");
    assert_eq!((r.width, r.height, r.x, r.y), (800, 600, 100, 50));
    assert_eq!(r.app_name, "librewolf");
    assert_eq!(r.pid, 0);
}

#[test]
fn xwininfo_negative_offsets() {
    let r = parse_xwininfo_line("  0xabc \"x\": ()  10x20-5-7  +0+0").unwrap();
    assert_eq!(r.id, 0xabc);
    assert_eq!((r.width, r.height, r.x, r.y), (10, 20, -5, -7));
    assert_eq!(r.app_name, "unknown");
}

#[test]
fn xwininfo_lines_that_do_not_parse() {
    assert!(parse_xwininfo_line("").is_none());
    assert!(parse_xwininfo_line("  Parent window id: 0x0 (none)").is_none());
    assert!(parse_xwininfo_line("  0x12 \"no geometry\": ()").is_none());
    assert!(parse_xwininfo_line("  0x12 \"unterminated: () 1x1+0+0").is_none());
    assert!(parse_xwininfo_line("  0xzz \"bad id\": () 1x1+0+0").is_none());
    assert!(parse_xwininfo_line("  0x100000000 \"too big\": () 1x1+0+0").is_none());
    assert!(parse_xwininfo_line("  0x1 \"w\": () 99999999999x1+0+0").is_none());
}

#[test]
fn xwininfo_tree_listing() {
    let out = "\nxwininfo: Window id: 0x1e7 (the root window) (has no name)\n\n  Root window id: 0x1e7 (the root window) (has no name)\n  Parent window id: 0x0 (none)\n     2 children:\n     0x1c00001 \"LibreWolf\": (\"librewolf\" \"LibreWolf\")  800x600+100+50  +100+50\r\n     0x2a00003 \"notes.odt - LibreOffice Writer\": (\"libreoffice\" \"LibreOffice\")  1024x768-10+0  +0+0\n     0x2a00004 \"children: 3x3+1+1\": ()  5x5+0+0  +0+0\n";
    let rs = parse_xwininfo_output(out);
    assert_eq!(rs.len(), 2);
    assert_eq!(rs[0].id, 0x1c00001);
    assert_eq!(rs[0].title, "LibreWolf");
    assert_eq!(rs[1].id, 0x2a00003);
    assert_eq!(rs[1].title, "notes.odt - LibreOffice Writer");
    assert_eq!((rs[1].width, rs[1].height, rs[1].x, rs[1].y), (1024, 768, -10, 0));
    assert_eq!(rs[1].app_name, "libreoffice");
}

#[test]
fn xwininfo_empty_output() {
    assert!(parse_xwininfo_output("").is_empty());
}

#[test]
fn wmctrl_listing() {
    let out = "0x01c00001  0 100 50 800 600 myhost LibreWolf\n0x02a00003  0 -5 20 1024 768 myhost Visual   Studio Code\n0x03000001 -1 0 0 1920 1080 myhost\ngarbage line\n0x04 0 a 0 1 1 h t\n";
    let rs = parse_wmctrl_output(out);
    assert_eq!(rs.len(), 2);
    assert_eq!(rs[0].id, 0x1c00001);
    assert_eq!((rs[0].x, rs[0].y, rs[0].width, rs[0].height), (100, 50, 800, 600));
    assert_eq!(rs[0].title, "LibreWolf");
    assert_eq!(rs[0].app_name, "librewolf");
    assert_eq!(rs[1].title, "Visual Studio Code");
    assert_eq!(rs[1].x, -5);
    assert_eq!(rs[1].app_name, "code");
}

#[test]
fn wmctrl_line_without_title_is_skipped() {
    assert!(parse_wmctrl_output("0x03000001 -1 0 0 1920 1080 myhost\n").is_empty());
    let rs = parse_wmctrl_output("0x03000001 -1 0 0 1920 1080 myhost x\n");
    assert_eq!(rs.len(), 1);
    assert_eq!(rs[0].title, "x");
}

#[test]
fn app_names_from_titles() {
    assert_eq!(get_app_name_from_title("Mozilla Firefox"), "firefox");
    assert_eq!(get_app_name_from_title("New Tab - Chromium"), "chromium");
    assert_eq!(get_app_name_from_title("LibreWolf Firefox"), "librewolf");
    assert_eq!(get_app_name_from_title("Untitled 1 - LibreOffice Calc"), "libreoffice");
    assert_eq!(get_app_name_from_title("main.rs - Visual Studio Code"), "code");
    assert_eq!(get_app_name_from_title("kitty"), "unknown");
    assert_eq!(get_app_name_from_title(""), "unknown");
}
