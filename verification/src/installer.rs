//! What the Windows installer and uninstaller write: the registry commands of
//! the uninstall entry, the PowerShell scripts that make the Start menu
//! shortcut and remove the install directory, and the UTF-16LE, base64 form
//! in which PowerShell takes a script on its command line.

use vstd::prelude::*;

use crate::crypto::{base64_padded, base64_standard_encode};
use crate::text::{hex_digit, hex_digit_char, push_char};
use vstd::string::*;

verus! {

/// Whether the app is installed for the current user or for all users.
#[derive(Debug, Clone, Copy, PartialEq, Eq, Structural)]
pub enum InstallScope {
    User,
    Machine,
}

pub const APP_DIR_NAME: &'static str = "rclippy";

pub const EXE_NAME: &'static str = "rclippy.exe";

pub const UNINSTALLER_NAME: &'static str = "rclippy-uninstaller.exe";

pub const ICON_NAME: &'static str = "rclippy.ico";

pub const SHORTCUT_NAME: &'static str = "rclippy.lnk";

pub const UNINSTALL_KEY: &'static str = "Software\\Microsoft\\Windows\\CurrentVersion\\Uninstall\\rclippy";

impl InstallScope {
    /// The scope for a user who is, or is not, an administrator.
    pub fn for_admin(is_admin: bool) -> (r: InstallScope)
        ensures
            r == if is_admin {
                InstallScope::Machine
            } else {
                InstallScope::User
            },
    {
        if is_admin {
            InstallScope::Machine
        } else {
            InstallScope::User
        }
    }

    /// The registry hive of the uninstall entry.
    pub fn reg_root(&self) -> (r: &'static str)
        ensures
            r@ == match *self {
                InstallScope::User => "HKCU"@,
                InstallScope::Machine => "HKLM"@,
            },
    {
        match self {
            InstallScope::User => "HKCU",
            InstallScope::Machine => "HKLM",
        }
    }

    /// The install directory: the environment variable naming its base, and
    /// the directories under the base.
    pub fn install_dir(&self) -> (r: (&'static str, Vec<&'static str>))
        ensures
            r.0@ == match *self {
                InstallScope::User => "LOCALAPPDATA"@,
                InstallScope::Machine => "ProgramFiles"@,
            },
            r.1@.map_values(|p: &str| p@) == match *self {
                InstallScope::User => seq!["Programs"@, APP_DIR_NAME@],
                InstallScope::Machine => seq![APP_DIR_NAME@],
            },
    {
        let mut parts: Vec<&'static str> = Vec::new();
        match self {
            InstallScope::User => {
                parts.push("Programs");
                parts.push(APP_DIR_NAME);
                assert(parts@.map_values(|p: &str| p@) =~= seq!["Programs"@, APP_DIR_NAME@]);
                ("LOCALAPPDATA", parts)
            },
            InstallScope::Machine => {
                parts.push(APP_DIR_NAME);
                assert(parts@.map_values(|p: &str| p@) =~= seq![APP_DIR_NAME@]);
                ("ProgramFiles", parts)
            },
        }
    }

    /// The Start menu shortcut: the environment variable naming its base, and
    /// the path under the base.
    pub fn shortcut_path(&self) -> (r: (&'static str, Vec<&'static str>))
        ensures
            r.0@ == match *self {
                InstallScope::User => "APPDATA"@,
                InstallScope::Machine => "ProgramData"@,
            },
            r.1@.map_values(|p: &str| p@) == seq![
                "Microsoft"@,
                "Windows"@,
                "Start Menu"@,
                "Programs"@,
                SHORTCUT_NAME@,
            ],
    {
        let mut parts: Vec<&'static str> = Vec::new();
        parts.push("Microsoft");
        parts.push("Windows");
        parts.push("Start Menu");
        parts.push("Programs");
        parts.push(SHORTCUT_NAME);
        assert(parts@.map_values(|p: &str| p@) =~= seq![
            "Microsoft"@,
            "Windows"@,
            "Start Menu"@,
            "Programs"@,
            SHORTCUT_NAME@,
        ]);
        let base = match self {
            InstallScope::User => "APPDATA",
            InstallScope::Machine => "ProgramData",
        };
        (base, parts)
    }

    /// The registry key of the uninstall entry, under the scope's hive.
    pub fn uninstall_key(&self) -> (r: String)
        ensures
            r@ == self.reg_root_spec() + "\\"@ + UNINSTALL_KEY@,
    {
        let mut key = String::from_str(self.reg_root());
        key.append("\\");
        key.append(UNINSTALL_KEY);
        key
    }

    pub open spec fn reg_root_spec(&self) -> Seq<char> {
        match *self {
            InstallScope::User => "HKCU"@,
            InstallScope::Machine => "HKLM"@,
        }
    }
}

/// A text in PowerShell's single quotes, each quote inside it doubled.
pub open spec fn ps_escape(s: Seq<char>) -> Seq<char>
    decreases s.len(),
{
    if s.len() == 0 {
        Seq::empty()
    } else {
        ps_escape(s.drop_last()) + if s.last() == '\'' {
            seq!['\'', '\'']
        } else {
            seq![s.last()]
        }
    }
}

pub open spec fn ps_quote(s: Seq<char>) -> Seq<char> {
    seq!['\''] + ps_escape(s) + seq!['\'']
}

/// `value` as a PowerShell single-quoted string literal.
pub fn powershell_string(value: &str) -> (r: String)
    ensures
        r@ == ps_quote(value@),
{
    let n = value.unicode_len();
    let mut out = String::new();
    push_char(&mut out, '\'');
    let mut i: usize = 0;
    while i < n
        invariant
            n == value@.len(),
            i <= n,
            out@ == seq!['\''] + ps_escape(value@.subrange(0, i as int)),
        decreases n - i,
    {
        let c = value.get_char(i);
        let ghost before = out@;
        if c == '\'' {
            push_char(&mut out, '\'');
            push_char(&mut out, '\'');
        } else {
            push_char(&mut out, c);
        }
        proof {
            let pre = value@.subrange(0, i + 1);
            assert(pre.drop_last() =~= value@.subrange(0, i as int));
            assert(pre.last() == c);
            assert(out@ =~= seq!['\''] + ps_escape(pre));
        }
        i = i + 1;
    }
    push_char(&mut out, '\'');
    assert(value@.subrange(0, n as int) =~= value@);
    assert(out@ =~= ps_quote(value@));
    out
}

/// The UTF-16 code units of a character: one below U+10000, a surrogate
/// pair above.
pub open spec fn utf16_units(c: char) -> Seq<u16> {
    let v = c as int;
    if v < 0x10000 {
        seq![v as u16]
    } else {
        let w = v - 0x10000;
        seq![(0xD800 + w / 0x400) as u16, (0xDC00 + w % 0x400) as u16]
    }
}

/// A code unit's two bytes, low byte first.
pub open spec fn le_bytes(u: u16) -> Seq<u8> {
    seq![(u % 256) as u8, (u / 256) as u8]
}

pub open spec fn units_le(units: Seq<u16>) -> Seq<u8>
    decreases units.len(),
{
    if units.len() == 0 {
        Seq::empty()
    } else {
        units_le(units.drop_last()) + le_bytes(units.last())
    }
}

/// The UTF-16LE encoding of a text.
pub open spec fn utf16le_of(s: Seq<char>) -> Seq<u8>
    decreases s.len(),
{
    if s.len() == 0 {
        Seq::empty()
    } else {
        utf16le_of(s.drop_last()) + units_le(utf16_units(s.last()))
    }
}

proof fn lemma_units_le_one(u: u16)
    ensures
        units_le(seq![u]) == le_bytes(u),
{
    assert(seq![u].drop_last() =~= Seq::<u16>::empty());
    assert(units_le(Seq::<u16>::empty()) =~= Seq::<u8>::empty());
    assert(units_le(seq![u]) =~= le_bytes(u));
}

fn push_unit(out: &mut Vec<u8>, u: u16)
    ensures
        final(out)@ == old(out)@ + le_bytes(u),
{
    out.push((u % 256) as u8);
    out.push((u / 256) as u8);
    assert(final(out)@ =~= old(out)@ + le_bytes(u));
}

/// The UTF-16LE bytes of a text, as `encode_utf16` and `to_le_bytes` give them.
pub fn utf16le(value: &str) -> (r: Vec<u8>)
    ensures
        r@ == utf16le_of(value@),
{
    let n = value.unicode_len();
    let mut out: Vec<u8> = Vec::new();
    let mut i: usize = 0;
    while i < n
        invariant
            n == value@.len(),
            i <= n,
            out@ == utf16le_of(value@.subrange(0, i as int)),
        decreases n - i,
    {
        let c = value.get_char(i);
        let v = c as u32;
        let ghost before = out@;
        if v < 0x10000 {
            push_unit(&mut out, v as u16);
            proof {
                let units = utf16_units(c);
                assert(units == seq![v as u16]);
                lemma_units_le_one(v as u16);
            }
        } else {
            let w = v - 0x10000;
            assert(w < 0x100000);
            let hi = (0xD800 + w / 0x400) as u16;
            let lo = (0xDC00 + w % 0x400) as u16;
            push_unit(&mut out, hi);
            push_unit(&mut out, lo);
            proof {
                let units = utf16_units(c);
                assert(units == seq![hi, lo]);
                assert(units.drop_last() =~= seq![hi]);
                lemma_units_le_one(hi);
                assert(units_le(units) =~= le_bytes(hi) + le_bytes(lo));
            }
        }
        proof {
            let pre = value@.subrange(0, i + 1);
            assert(pre.drop_last() =~= value@.subrange(0, i as int));
            assert(pre.last() == c);
            assert(out@ =~= utf16le_of(pre));
        }
        i = i + 1;
    }
    assert(value@.subrange(0, n as int) =~= value@);
    out
}

/// A script in the form that `powershell -EncodedCommand` takes: its
/// UTF-16LE bytes in standard base64 with padding.
pub fn encoded_command(script: &str) -> (r: String)
    ensures
        r@ == base64_padded(utf16le_of(script@)),
{
    let bytes = utf16le(script);
    base64_standard_encode(bytes.as_slice())
}

/// The arguments of `powershell.exe` that run an encoded script, the window
/// hidden where asked.
pub fn powershell_args(encoded: String, hidden_window: bool) -> (r: Vec<String>)
    ensures
        r@.map_values(|a: String| a@) == (if hidden_window {
            seq![
                "-NoProfile"@,
                "-NonInteractive"@,
                "-ExecutionPolicy"@,
                "Bypass"@,
                "-WindowStyle"@,
                "Hidden"@,
                "-EncodedCommand"@,
                encoded@,
            ]
        } else {
            seq![
                "-NoProfile"@,
                "-NonInteractive"@,
                "-ExecutionPolicy"@,
                "Bypass"@,
                "-EncodedCommand"@,
                encoded@,
            ]
        }),
{
    let ghost e = encoded@;
    let mut args: Vec<String> = Vec::new();
    args.push(String::from_str("-NoProfile"));
    args.push(String::from_str("-NonInteractive"));
    args.push(String::from_str("-ExecutionPolicy"));
    args.push(String::from_str("Bypass"));
    if hidden_window {
        args.push(String::from_str("-WindowStyle"));
        args.push(String::from_str("Hidden"));
    }
    args.push(String::from_str("-EncodedCommand"));
    args.push(encoded);
    if hidden_window {
        assert(args@.map_values(|a: String| a@) =~= seq![
            "-NoProfile"@,
            "-NonInteractive"@,
            "-ExecutionPolicy"@,
            "Bypass"@,
            "-WindowStyle"@,
            "Hidden"@,
            "-EncodedCommand"@,
            e,
        ]);
    } else {
        assert(args@.map_values(|a: String| a@) =~= seq![
            "-NoProfile"@,
            "-NonInteractive"@,
            "-ExecutionPolicy"@,
            "Bypass"@,
            "-EncodedCommand"@,
            e,
        ]);
    }
    args
}

pub const SHORTCUT_SCRIPT_HEAD: &'static str = "$shell = New-Object -ComObject WScript.Shell\n$shortcut = $shell.CreateShortcut(";

pub const SHORTCUT_SCRIPT_TARGET: &'static str = ")\n$shortcut.TargetPath = ";

pub const SHORTCUT_SCRIPT_WORKING_DIR: &'static str = "\n$shortcut.WorkingDirectory = ";

pub const SHORTCUT_SCRIPT_ICON: &'static str = "\n$shortcut.IconLocation = ";

pub const SHORTCUT_SCRIPT_TAIL: &'static str = "\n$shortcut.Save()\n";

/// An icon location: the file and the index of its first icon.
pub open spec fn icon_location(icon_path: Seq<char>) -> Seq<char> {
    icon_path + ",0"@
}

/// The PowerShell script that makes the Start menu shortcut.
pub open spec fn shortcut_script_text(
    shortcut: Seq<char>,
    target: Seq<char>,
    working_dir: Seq<char>,
    icon_path: Seq<char>,
) -> Seq<char> {
    SHORTCUT_SCRIPT_HEAD@ + ps_quote(shortcut) + SHORTCUT_SCRIPT_TARGET@ + ps_quote(target)
        + SHORTCUT_SCRIPT_WORKING_DIR@ + ps_quote(working_dir) + SHORTCUT_SCRIPT_ICON@ + ps_quote(
        icon_location(icon_path),
    ) + SHORTCUT_SCRIPT_TAIL@
}

/// The script that makes a shortcut at `shortcut` to `target`, started in
/// `working_dir`, with the first icon of `icon_path`.
pub fn shortcut_script(shortcut: &str, target: &str, working_dir: &str, icon_path: &str) -> (r:
    String)
    ensures
        r@ == shortcut_script_text(shortcut@, target@, working_dir@, icon_path@),
{
    let mut icon = String::from_str(icon_path);
    icon.append(",0");
    let mut out = String::from_str(SHORTCUT_SCRIPT_HEAD);
    out.append(powershell_string(shortcut).as_str());
    out.append(SHORTCUT_SCRIPT_TARGET);
    out.append(powershell_string(target).as_str());
    out.append(SHORTCUT_SCRIPT_WORKING_DIR);
    out.append(powershell_string(working_dir).as_str());
    out.append(SHORTCUT_SCRIPT_ICON);
    out.append(powershell_string(icon.as_str()).as_str());
    out.append(SHORTCUT_SCRIPT_TAIL);
    assert(out@ =~= shortcut_script_text(shortcut@, target@, working_dir@, icon_path@));
    out
}

pub const CLEANUP_SCRIPT_HEAD: &'static str = "Start-Sleep -Milliseconds 750; Remove-Item -LiteralPath ";

pub const CLEANUP_SCRIPT_TAIL: &'static str = " -Recurse -Force";

/// The script, run once the uninstaller has exited, that removes the install directory.
pub fn cleanup_script(install_dir: &str) -> (r: String)
    ensures
        r@ == CLEANUP_SCRIPT_HEAD@ + ps_quote(install_dir@) + CLEANUP_SCRIPT_TAIL@,
{
    let mut out = String::from_str(CLEANUP_SCRIPT_HEAD);
    out.append(powershell_string(install_dir).as_str());
    out.append(CLEANUP_SCRIPT_TAIL);
    out
}

/// The decimal digits of a number.
pub open spec fn decimal(n: nat) -> Seq<char>
    decreases n,
{
    if n < 10 {
        seq![hex_digit(n as int)]
    } else {
        decimal(n / 10) + seq![hex_digit(n as int % 10)]
    }
}

fn push_decimal(out: &mut String, n: u32)
    ensures
        final(out)@ == old(out)@ + decimal(n as nat),
    decreases n,
{
    if n >= 10 {
        push_decimal(out, n / 10);
    }
    push_char(out, hex_digit_char((n % 10) as u8));
    assert(final(out)@ =~= old(out)@ + decimal(n as nat));
}

/// The arguments of `reg.exe` that set the value `name` of `key`, of the
/// given type, overwriting it.
pub fn reg_add(key: &str, name: &str, value_type: &str, value: &str) -> (r: Vec<String>)
    ensures
        r@.map_values(|a: String| a@) == seq![
            "add"@,
            key@,
            "/v"@,
            name@,
            "/t"@,
            value_type@,
            "/d"@,
            value@,
            "/f"@,
        ],
{
    let mut args: Vec<String> = Vec::new();
    args.push(String::from_str("add"));
    args.push(String::from_str(key));
    args.push(String::from_str("/v"));
    args.push(String::from_str(name));
    args.push(String::from_str("/t"));
    args.push(String::from_str(value_type));
    args.push(String::from_str("/d"));
    args.push(String::from_str(value));
    args.push(String::from_str("/f"));
    assert(args@.map_values(|a: String| a@) =~= seq![
        "add"@,
        key@,
        "/v"@,
        name@,
        "/t"@,
        value_type@,
        "/d"@,
        value@,
        "/f"@,
    ]);
    args
}

/// The `reg.exe` arguments that set a string value.
pub fn reg_add_sz(key: &str, name: &str, value: &str) -> (r: Vec<String>)
    ensures
        r@.map_values(|a: String| a@) == seq![
            "add"@,
            key@,
            "/v"@,
            name@,
            "/t"@,
            "REG_SZ"@,
            "/d"@,
            value@,
            "/f"@,
        ],
{
    reg_add(key, name, "REG_SZ", value)
}

/// The `reg.exe` arguments that set a 32-bit number, written in decimal.
pub fn reg_add_dword(key: &str, name: &str, value: u32) -> (r: Vec<String>)
    ensures
        r@.map_values(|a: String| a@) == seq![
            "add"@,
            key@,
            "/v"@,
            name@,
            "/t"@,
            "REG_DWORD"@,
            "/d"@,
            decimal(value as nat),
            "/f"@,
        ],
{
    let mut text = String::new();
    push_decimal(&mut text, value);
    reg_add(key, name, "REG_DWORD", text.as_str())
}

/// The total of some sizes.
pub open spec fn total(sizes: Seq<u64>) -> nat
    decreases sizes.len(),
{
    if sizes.len() == 0 {
        0
    } else {
        total(sizes.drop_last()) + (sizes.last() as nat)
    }
}

/// The space the installed files take, in KiB rounded up, at most the
/// largest `u32`: the value of the entry's `EstimatedSize`.
pub fn estimated_kib(sizes: &[u64]) -> (r: u32)
    requires
        total(sizes@) <= u64::MAX,
    ensures
        r == if (total(sizes@) + 1023) / 1024 > u32::MAX {
            u32::MAX as int
        } else {
            ((total(sizes@) + 1023) / 1024) as int
        },
{
    let n = sizes.len();
    let mut sum: u64 = 0;
    let mut i: usize = 0;
    while i < n
        invariant
            n == sizes@.len(),
            i <= n,
            sum == total(sizes@.subrange(0, i as int)),
            total(sizes@) <= u64::MAX,
        decreases n - i,
    {
        proof {
            let pre = sizes@.subrange(0, i + 1);
            assert(pre.drop_last() =~= sizes@.subrange(0, i as int));
            lemma_total_prefix(sizes@, i + 1);
        }
        sum = sum + sizes[i];
        i = i + 1;
    }
    assert(sizes@.subrange(0, n as int) =~= sizes@);
    let kib = sum / 1024 + if sum % 1024 == 0 {
        0
    } else {
        1
    };
    assert(kib == (sum + 1023) / 1024) by (nonlinear_arith)
        requires
            kib == sum / 1024 + if sum % 1024 == 0 {
                0int
            } else {
                1int
            },
    ;
    if kib > u32::MAX as u64 {
        u32::MAX
    } else {
        kib as u32
    }
}

proof fn lemma_total_prefix(s: Seq<u64>, k: int)
    requires
        0 <= k <= s.len(),
    ensures
        total(s.subrange(0, k)) <= total(s),
    decreases s.len(),
{
    if k < s.len() {
        assert(s.drop_last().subrange(0, k) =~= s.subrange(0, k));
        lemma_total_prefix(s.drop_last(), k);
    } else {
        assert(s.subrange(0, k) =~= s);
    }
}

/// The `reg.exe` argument lists that write the uninstall entry: the display
/// name, version and publisher, where the app lives, its icon, how to
/// uninstall it quietly or not, that it can be neither modified nor
/// repaired, and its estimated size.
pub fn uninstall_entry(
    scope: InstallScope,
    version: &str,
    install_dir: &str,
    icon_path: &str,
    uninstaller_path: &str,
    size_kib: u32,
) -> (r: Vec<Vec<String>>)
    ensures
        r@.len() == 10,
        ({
            let key = scope.reg_root_spec() + "\\"@ + UNINSTALL_KEY@;
            let quoted = "\""@ + uninstaller_path@ + "\""@;
            let sz = |name: Seq<char>, value: Seq<char>| seq!["add"@, key, "/v"@, name, "/t"@, "REG_SZ"@, "/d"@, value, "/f"@];
            let dword = |name: Seq<char>, value: nat| seq!["add"@, key, "/v"@, name, "/t"@, "REG_DWORD"@, "/d"@, decimal(value), "/f"@];
            &&& r@[0]@.map_values(|a: String| a@) == sz("DisplayName"@, APP_DIR_NAME@)
            &&& r@[1]@.map_values(|a: String| a@) == sz("DisplayVersion"@, version@)
            &&& r@[2]@.map_values(|a: String| a@) == sz("Publisher"@, "Invades"@)
            &&& r@[3]@.map_values(|a: String| a@) == sz("InstallLocation"@, install_dir@)
            &&& r@[4]@.map_values(|a: String| a@) == sz("DisplayIcon"@, icon_location(icon_path@))
            &&& r@[5]@.map_values(|a: String| a@) == sz("UninstallString"@, quoted)
            &&& r@[6]@.map_values(|a: String| a@) == sz("QuietUninstallString"@, quoted)
            &&& r@[7]@.map_values(|a: String| a@) == dword("NoModify"@, 1)
            &&& r@[8]@.map_values(|a: String| a@) == dword("NoRepair"@, 1)
            &&& r@[9]@.map_values(|a: String| a@) == dword("EstimatedSize"@, size_kib as nat)
        }),
{
    let key = scope.uninstall_key();
    let k = key.as_str();
    let mut icon = String::from_str(icon_path);
    icon.append(",0");
    let mut quoted = String::from_str("\"");
    quoted.append(uninstaller_path);
    quoted.append("\"");
    let mut out: Vec<Vec<String>> = Vec::new();
    out.push(reg_add_sz(k, "DisplayName", APP_DIR_NAME));
    out.push(reg_add_sz(k, "DisplayVersion", version));
    out.push(reg_add_sz(k, "Publisher", "Invades"));
    out.push(reg_add_sz(k, "InstallLocation", install_dir));
    out.push(reg_add_sz(k, "DisplayIcon", icon.as_str()));
    out.push(reg_add_sz(k, "UninstallString", quoted.as_str()));
    out.push(reg_add_sz(k, "QuietUninstallString", quoted.as_str()));
    out.push(reg_add_dword(k, "NoModify", 1));
    out.push(reg_add_dword(k, "NoRepair", 1));
    out.push(reg_add_dword(k, "EstimatedSize", size_kib));
    out
}

} // verus!
