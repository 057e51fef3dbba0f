use rclippy::clipboard::{ClipboardProvider, MemoryClipboard};
use rclippy::icons::{
    desired_tray_source_size, tray_icon, tray_icon_asset, tray_icon_variant, TrayIconAsset,
    TrayIconVariant,
};
use rclippy::installer::{
    cleanup_script, encoded_command, estimated_kib, powershell_args, powershell_string,
    reg_add_dword, reg_add_sz, shortcut_script, uninstall_entry, utf16le, InstallScope,
};
use rclippy::text::trimmed;
use rclippy::tray::{handle_menu_event, TrayCommand};

#[test]
fn memory_clipboard_reads_back_what_was_written() {
    let mut clipboard = MemoryClipboard::default();
    assert_eq!(clipboard.get_text().unwrap(), None);
    clipboard.set_text("one").unwrap();
    assert_eq!(clipboard.get_text().unwrap(), Some("one".to_owned()));
    clipboard.set_memory_text("two".to_owned());
    assert_eq!(clipboard.memory_text(), Some("two".to_owned()));
}

#[test]
fn trimming_matches_str_trim() {
    for s in ["", "  ", " a ", "a", "\u{3000}x y\t", "\u{85}\u{a0}"] {
        assert_eq!(trimmed(s), s.trim());
    }
}

#[test]
fn tray_variant_and_size() {
    assert_eq!(tray_icon_variant(true), TrayIconVariant::Monochrome);
    assert_eq!(tray_icon_variant(false), TrayIconVariant::Color);
    assert_eq!(desired_tray_source_size(0), 32);
    assert_eq!(desired_tray_source_size(-4), 32);
    assert_eq!(desired_tray_source_size(20), 40);
    assert_eq!(desired_tray_source_size(i32::MAX), 4294967294);
}

fn assets() -> Vec<TrayIconAsset> {
    [32u32, 40, 48, 64, 96]
        .iter()
        .map(|&size| TrayIconAsset { size, color: vec![size as u8; 4], mono: vec![1; 4] })
        .collect()
}

#[test]
fn closest_tray_asset_is_picked() {
    let assets = assets();
    assert_eq!(tray_icon_asset(&assets, 32), 0);
    assert_eq!(tray_icon_asset(&assets, 44), 1);
    assert_eq!(tray_icon_asset(&assets, 45), 2);
    assert_eq!(tray_icon_asset(&assets, 1000), 4);
    assert_eq!(tray_icon_asset(&assets, 0), 0);
    let image = tray_icon(TrayIconVariant::Color, &assets, 60);
    assert_eq!(image.size, 64);
    assert_eq!(image.rgba, vec![64; 4]);
    let mono = tray_icon(TrayIconVariant::Monochrome, &assets, 60);
    assert_eq!(mono.rgba, vec![1; 4]);
}

#[test]
fn menu_events() {
    assert_eq!(handle_menu_event("s", "q", "s"), (Some(TrayCommand::ShowSettings), false));
    assert_eq!(handle_menu_event("s", "q", "q"), (Some(TrayCommand::Quit), true));
    assert_eq!(handle_menu_event("s", "q", "z"), (None, false));
    assert_eq!(handle_menu_event("s", "s", "s"), (Some(TrayCommand::ShowSettings), false));
}

#[test]
fn powershell_quoting() {
    assert_eq!(powershell_string("C:\\Users\\o'neil"), "'C:\\Users\\o''neil'");
    assert_eq!(powershell_string(""), "''");
}

#[test]
fn utf16le_matches_std() {
    for s in ["", "abc", "é", "€", "😀x"] {
        let expected: Vec<u8> = s.encode_utf16().flat_map(u16::to_le_bytes).collect();
        assert_eq!(utf16le(s), expected);
    }
}

#[test]
fn encoded_commands() {
    assert_eq!(encoded_command("ab"), "YQBiAA==");
    let args = powershell_args("X".to_owned(), false);
    assert_eq!(args, ["-NoProfile", "-NonInteractive", "-ExecutionPolicy", "Bypass", "-EncodedCommand", "X"]);
    let hidden = powershell_args("X".to_owned(), true);
    assert_eq!(hidden[4..6], ["-WindowStyle".to_owned(), "Hidden".to_owned()]);
}

#[test]
fn scripts() {
    assert_eq!(
        shortcut_script("S", "T", "W", "I"),
        "$shell = New-Object -ComObject WScript.Shell\n$shortcut = $shell.CreateShortcut('S')\n$shortcut.TargetPath = 'T'\n$shortcut.WorkingDirectory = 'W'\n$shortcut.IconLocation = 'I,0'\n$shortcut.Save()\n"
    );
    assert_eq!(
        cleanup_script("C:\\x"),
        "Start-Sleep -Milliseconds 750; Remove-Item -LiteralPath 'C:\\x' -Recurse -Force"
    );
}

#[test]
fn registry_commands() {
    assert_eq!(reg_add_sz("K", "N", "V"), ["add", "K", "/v", "N", "/t", "REG_SZ", "/d", "V", "/f"]);
    assert_eq!(reg_add_dword("K", "N", 4096), ["add", "K", "/v", "N", "/t", "REG_DWORD", "/d", "4096", "/f"]);
    assert_eq!(reg_add_dword("K", "N", 0)[7], "0");
    assert_eq!(InstallScope::User.reg_root(), "HKCU");
    assert_eq!(InstallScope::for_admin(true), InstallScope::Machine);
    assert_eq!(
        InstallScope::Machine.uninstall_key(),
        "HKLM\\Software\\Microsoft\\Windows\\CurrentVersion\\Uninstall\\rclippy"
    );
    let entry = uninstall_entry(InstallScope::User, "0.1.0", "D", "D\\i.ico", "D\\u.exe", 12);
    assert_eq!(entry.len(), 10);
    assert_eq!(entry[4][7], "D\\i.ico,0");
    assert_eq!(entry[5][7], "\"D\\u.exe\"");
    assert_eq!(entry[9][3], "EstimatedSize");
    assert_eq!(entry[9][7], "12");
    let (base, dirs) = InstallScope::User.install_dir();
    assert_eq!((base, dirs), ("LOCALAPPDATA", vec!["Programs", "rclippy"]));
    let (base, path) = InstallScope::Machine.shortcut_path();
    assert_eq!(base, "ProgramData");
    assert_eq!(path.last(), Some(&"rclippy.lnk"));
}

#[test]
fn estimated_size_rounds_up() {
    assert_eq!(estimated_kib(&[]), 0);
    assert_eq!(estimated_kib(&[1]), 1);
    assert_eq!(estimated_kib(&[1024, 1024]), 2);
    assert_eq!(estimated_kib(&[1025]), 2);
    assert_eq!(estimated_kib(&[u64::MAX]), u32::MAX);
}
