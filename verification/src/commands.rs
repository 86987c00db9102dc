//! The command lines, scripts and printer names handed to the system when
//! printing on Windows.
use vstd::prelude::*;
use vstd::string::StringExecFns;
use crate::strings::{push_char, chars_of, texts};
use crate::text::{trimmed, trim_text, quotes_doubled, escape_powershell_single};

verus! {

/// The printer asked for, once surrounding white space is removed; `None`
/// stands for the system's default printer.
pub open spec fn requested_printer_name(printer_name: Seq<char>) -> Option<Seq<char>> {
    if trimmed(printer_name).len() == 0 {
        None
    } else {
        Some(trimmed(printer_name))
    }
}

/// The printer asked for by `printer_name`, or `None` for the default one.
pub fn requested_printer(printer_name: &str) -> (r: Option<String>)
    ensures
        match r {
            Some(name) => requested_printer_name(printer_name@) == Some(name@),
            None => requested_printer_name(printer_name@) is None,
        },
{
    let t = trim_text(printer_name);
    if chars_of(t.as_str()).len() == 0 {
        None
    } else {
        Some(t)
    }
}

/// The printer name shown for a SumatraPDF job: the one asked for, or
/// `Predeterminada` for the default printer.
pub open spec fn sumatra_printer_label_text(printer_name: Seq<char>) -> Seq<char> {
    match requested_printer_name(printer_name) {
        Some(name) => name,
        None => "Predeterminada"@,
    }
}

/// See [`sumatra_printer_label_text`].
pub fn sumatra_printer_label(printer_name: &str) -> (r: String)
    ensures
        r@ == sumatra_printer_label_text(printer_name@),
{
    match requested_printer(printer_name) {
        Some(name) => name,
        None => String::from_str("Predeterminada"),
    }
}

/// The arguments given to SumatraPDF: print silently, exit when done, fit
/// the page, choose the printer (or the default one), then the file.
pub open spec fn sumatra_args(printer_name: Seq<char>, file_path: Seq<char>) -> Seq<Seq<char>> {
    seq!["-silent"@, "-exit-when-done"@, "-print-settings"@, "fit"@] + match requested_printer_name(
        printer_name,
    ) {
        Some(name) => seq!["-print-to"@, name],
        None => seq!["-print-to-default"@],
    } + seq![file_path]
}

/// See [`sumatra_args`].
pub fn sumatra_print_args(printer_name: &str, file_path: &str) -> (r: Vec<String>)
    ensures
        texts(r@) == sumatra_args(printer_name@, file_path@),
{
    let mut args: Vec<String> = Vec::new();
    args.push(String::from_str("-silent"));
    args.push(String::from_str("-exit-when-done"));
    args.push(String::from_str("-print-settings"));
    args.push(String::from_str("fit"));
    match requested_printer(printer_name) {
        Some(name) => {
            args.push(String::from_str("-print-to"));
            args.push(name);
        },
        None => {
            args.push(String::from_str("-print-to-default"));
        },
    }
    args.push(String::from_str(file_path));
    assert(texts(args@) =~= sumatra_args(printer_name@, file_path@));
    args
}

/// Strings joined with `sep` between them.
pub open spec fn joined(parts: Seq<Seq<char>>, sep: Seq<char>) -> Seq<char>
    decreases parts.len(),
{
    if parts.len() == 0 {
        seq![]
    } else if parts.len() == 1 {
        parts[0]
    } else {
        joined(parts.drop_last(), sep) + sep + parts.last()
    }
}

/// `parts` joined with `sep` between them (`[String]::join`).
pub fn join_with(parts: &Vec<String>, sep: &str) -> (r: String)
    ensures
        r@ == joined(texts(parts@), sep@),
{
    let mut line = String::new();
    let mut i: usize = 0;
    while i < parts.len()
        invariant
            i <= parts.len(),
            line@ == joined(texts(parts@.take(i as int)), sep@),
        decreases parts.len() - i,
    {
        let ghost prev = texts(parts@.take(i as int));
        if i > 0 {
            line.append(sep);
        }
        line.append(parts[i].as_str());
        proof {
            let t = texts(parts@.take(i + 1));
            assert(t.drop_last() =~= prev);
            assert(t.last() == parts@[i as int]@);
            if i == 0 {
                assert(t.len() == 1);
                assert(line@ =~= joined(t, sep@));
            } else {
                assert(line@ =~= joined(t, sep@));
            }
        }
        i += 1;
    }
    proof {
        assert(parts@.take(parts@.len() as int) =~= parts@);
    }
    line
}

/// The command line shown for a SumatraPDF run: the program, a space, and
/// the arguments separated by spaces.
pub fn sumatra_command_line(program: &str, args: &Vec<String>) -> (r: String)
    ensures
        r@ == program@ + " "@ + joined(texts(args@), " "@),
{
    let mut line = String::from_str(program);
    line.append(" ");
    line.append(join_with(args, " ").as_str());
    line
}

/// The error when SumatraPDF is nowhere to be found, listing the places
/// searched.
pub open spec fn sumatra_not_found_text(checked: Seq<Seq<char>>) -> Seq<char> {
    "No se encontro SumatraPDF portable empaquetado. Rutas revisadas: "@ + joined(checked, " | "@)
}

/// See [`sumatra_not_found_text`].
pub fn sumatra_not_found_message(checked: &Vec<String>) -> (r: String)
    ensures
        r@ == sumatra_not_found_text(texts(checked@)),
{
    let mut m = String::from_str("No se encontro SumatraPDF portable empaquetado. Rutas revisadas: ");
    m.append(join_with(checked, " | ").as_str());
    m
}

/// Whether `s` starts with two backslashes, as a UNC path does.
pub open spec fn is_unc(s: Seq<char>) -> bool {
    s.len() >= 2 && s[0] == '\\' && s[1] == '\\'
}

/// The share that receives a raw ESC/POS ticket: a UNC path as given, or
/// the printer shared on this machine.
pub open spec fn share_target(printer_share: Seq<char>, on_windows: bool) -> Result<
    Seq<char>,
    Seq<char>,
> {
    let t = trimmed(printer_share);
    if !on_windows {
        Err("La impresion ESC/POS directa solo esta implementada para Windows."@)
    } else if t.len() == 0 {
        Err("Configura el nombre compartido de la impresora termica."@)
    } else if is_unc(t) {
        Ok(t)
    } else {
        Ok(seq!['\\', '\\'] + "localhost"@ + seq!['\\'] + t)
    }
}

/// See [`share_target`]; `on_windows` tells whether the program runs on
/// Windows, the only system with this printing path.
pub fn printer_share_target(printer_share: &str, on_windows: bool) -> (r: Result<String, String>)
    ensures
        match r {
            Ok(t) => share_target(printer_share@, on_windows) == Ok::<Seq<char>, Seq<char>>(t@),
            Err(e) => share_target(printer_share@, on_windows) == Err::<Seq<char>, Seq<char>>(e@),
        },
{
    if !on_windows {
        return Err(String::from_str("La impresion ESC/POS directa solo esta implementada para Windows."));
    }
    let t = trim_text(printer_share);
    let chars = chars_of(t.as_str());
    if chars.len() == 0 {
        return Err(String::from_str("Configura el nombre compartido de la impresora termica."));
    }
    if chars.len() >= 2 && chars[0] == '\\' && chars[1] == '\\' {
        Ok(t)
    } else {
        let mut target = String::new();
        push_char(&mut target, '\\');
        push_char(&mut target, '\\');
        target.append("localhost");
        push_char(&mut target, '\\');
        target.append(t.as_str());
        assert(target@ =~= seq!['\\', '\\'] + "localhost"@ + seq!['\\'] + t@);
        Ok(target)
    }
}

/// `copy /B "path" "target"`: the `cmd` line that sends a file to a share.
pub open spec fn copy_command_text(path: Seq<char>, target: Seq<char>) -> Seq<char> {
    "copy /B "@ + seq!['"'] + path + seq!['"', ' ', '"'] + target + seq!['"']
}

/// See [`copy_command_text`].
pub fn copy_command(path: &str, target: &str) -> (r: String)
    ensures
        r@ == copy_command_text(path@, target@),
{
    let mut c = String::from_str("copy /B ");
    push_char(&mut c, '"');
    c.append(path);
    push_char(&mut c, '"');
    push_char(&mut c, ' ');
    push_char(&mut c, '"');
    c.append(target);
    push_char(&mut c, '"');
    assert(c@ =~= copy_command_text(path@, target@));
    c
}

/// The PowerShell script that lists the first five jobs of a printer.
pub open spec fn print_jobs_script_text(printer_name: Seq<char>) -> Seq<char> {
    "Get-PrintJob -PrinterName '"@ + quotes_doubled(printer_name)
        + "' | Select-Object -First 5 ID,Name,JobStatus,SubmittedTime | ConvertTo-Json -Compress"@
}

/// See [`print_jobs_script_text`].
pub fn print_jobs_script(printer_name: &str) -> (r: String)
    ensures
        r@ == print_jobs_script_text(printer_name@),
{
    let mut s = String::from_str("Get-PrintJob -PrinterName '");
    s.append(escape_powershell_single(printer_name).as_str());
    s.append("' | Select-Object -First 5 ID,Name,JobStatus,SubmittedTime | ConvertTo-Json -Compress");
    s
}

/// What the job listing reports: its trimmed output, or its trimmed error
/// output when the script failed; a fixed text stands for empty output.
pub open spec fn print_jobs_report(success: bool, stdout: Seq<char>, stderr: Seq<char>) -> Result<
    Seq<char>,
    Seq<char>,
> {
    if success {
        if trimmed(stdout).len() == 0 {
            Ok("Sin trabajos activos detectados"@)
        } else {
            Ok(trimmed(stdout))
        }
    } else {
        if trimmed(stderr).len() == 0 {
            Err("Get-PrintJob fallo sin detalle"@)
        } else {
            Err(trimmed(stderr))
        }
    }
}

/// See [`print_jobs_report`].
pub fn print_jobs_outcome(success: bool, stdout: &str, stderr: &str) -> (r: Result<String, String>)
    ensures
        match r {
            Ok(t) => print_jobs_report(success, stdout@, stderr@) == Ok::<Seq<char>, Seq<char>>(t@),
            Err(e) => print_jobs_report(success, stdout@, stderr@) == Err::<Seq<char>, Seq<char>>(
                e@,
            ),
        },
{
    if success {
        let out = trim_text(stdout);
        if chars_of(out.as_str()).len() == 0 {
            Ok(String::from_str("Sin trabajos activos detectados"))
        } else {
            Ok(out)
        }
    } else {
        let err = trim_text(stderr);
        if chars_of(err.as_str()).len() == 0 {
            Err(String::from_str("Get-PrintJob fallo sin detalle"))
        } else {
            Err(err)
        }
    }
}

/// `s` with single quotes doubled and double quotes preceded by a
/// backtick, for a printer name inside the PowerShell argument list.
pub open spec fn shell_argument_escaped(s: Seq<char>) -> Seq<char>
    decreases s.len(),
{
    if s.len() == 0 {
        seq![]
    } else if s.last() == '\'' {
        shell_argument_escaped(s.drop_last()) + seq!['\'', '\'']
    } else if s.last() == '"' {
        shell_argument_escaped(s.drop_last()) + seq!['`', '"']
    } else {
        shell_argument_escaped(s.drop_last()).push(s.last())
    }
}

fn escape_shell_argument(value: &str) -> (r: String)
    ensures
        r@ == shell_argument_escaped(value@),
{
    let mut out = String::new();
    for c in it: value.chars()
        invariant
            it.seq() == value@,
            out@ == shell_argument_escaped(it.seq().take(it.index() as int)),
    {
        let ghost before = it.seq().take(it.index() as int);
        if c == '\'' {
            push_char(&mut out, '\'');
            push_char(&mut out, '\'');
        } else if c == '"' {
            push_char(&mut out, '`');
            push_char(&mut out, '"');
        } else {
            push_char(&mut out, c);
        }
        proof {
            let i = it.index();
            assert(it.seq().take(i + 1) =~= before.push(c));
            assert(before.push(c).drop_last() =~= before);
        }
    }
    proof {
        assert(value@.take(value@.len() as int) =~= value@);
    }
    out
}

/// The PowerShell script that hands a PDF to the application registered to
/// print it: `PrintTo` a named printer when one is given and not blank,
/// `Print` to the default printer otherwise.
pub open spec fn shell_print_script_text(path: Seq<char>, printer_name: Option<Seq<char>>) -> Seq<
    char,
> {
    let p = quotes_doubled(path);
    match printer_name {
        Some(name) if trimmed(name).len() != 0 => "Start-Process -FilePath '"@ + p
            + "' -Verb PrintTo -ArgumentList '"@ + seq!['"'] + shell_argument_escaped(name)
            + seq!['"'] + "' -WindowStyle Hidden"@,
        _ => "Start-Process -FilePath '"@ + p + "' -Verb Print -WindowStyle Hidden"@,
    }
}

/// See [`shell_print_script_text`].
pub fn shell_print_script(path: &str, printer_name: Option<&str>) -> (r: String)
    ensures
        r@ == shell_print_script_text(
            path@,
            match printer_name {
                Some(n) => Some(n@),
                None => None,
            },
        ),
{
    let p = escape_powershell_single(path);
    let mut s = String::from_str("Start-Process -FilePath '");
    s.append(p.as_str());
    match printer_name {
        Some(name) => {
            if chars_of(trim_text(name).as_str()).len() != 0 {
                s.append("' -Verb PrintTo -ArgumentList '");
                push_char(&mut s, '"');
                s.append(escape_shell_argument(name).as_str());
                push_char(&mut s, '"');
                s.append("' -WindowStyle Hidden");
                return s;
            }
        },
        None => {},
    }
    s.append("' -Verb Print -WindowStyle Hidden");
    s
}

/// ASCII lower case of a character.
pub open spec fn ascii_lower(c: char) -> char {
    if 'A' <= c && c <= 'Z' {
        (((c as u32) + 32) as u8) as char
    } else {
        c
    }
}

/// Whether a file name, read without regard to ASCII case, starts with
/// `sumatrapdf` and ends with `.exe`.
pub open spec fn is_sumatra_exe_name(name: Seq<char>) -> bool {
    let l = name.map_values(|c: char| ascii_lower(c));
    l.len() >= 10 && l.take(10) == "sumatrapdf"@ && l.skip(l.len() - 4) == ".exe"@
}

/// See [`is_sumatra_exe_name`].
pub fn is_sumatra_pdf_name(name: &str) -> (r: bool)
    ensures
        r == is_sumatra_exe_name(name@),
{
    let chars = chars_of(name);
    let mut lower: Vec<char> = Vec::new();
    let mut i: usize = 0;
    while i < chars.len()
        invariant
            i <= chars.len(),
            lower@ == chars@.take(i as int).map_values(|c: char| ascii_lower(c)),
        decreases chars.len() - i,
    {
        let c = chars[i];
        let l = if 'A' <= c && c <= 'Z' {
            ((c as u32) + 32) as u8 as char
        } else {
            c
        };
        lower.push(l);
        assert(chars@.take(i + 1).map_values(|c: char| ascii_lower(c)) =~= lower@);
        i += 1;
    }
    assert(chars@.take(chars@.len() as int) =~= chars@);
    let prefix = chars_of("sumatrapdf");
    let suffix = chars_of(".exe");
    proof {
        reveal_strlit("sumatrapdf");
        reveal_strlit(".exe");
    }
    if lower.len() < 10 || lower.len() < 4 {
        return false;
    }
    let mut ok = true;
    let mut j: usize = 0;
    while j < 10
        invariant
            j <= 10,
            lower.len() >= 10,
            prefix@ == "sumatrapdf"@,
            prefix@.len() == 10,
            ok == (forall|k: int| 0 <= k < j ==> lower@[k] == prefix@[k]),
        decreases 10 - j,
    {
        if lower[j] != prefix[j] {
            ok = false;
        }
        j += 1;
    }
    let n = lower.len();
    let mut k: usize = 0;
    while k < 4
        invariant
            k <= 4,
            n == lower.len() >= 10,
            suffix@ == ".exe"@,
            suffix@.len() == 4,
            ok == ((forall|m: int| 0 <= m < 10 ==> lower@[m] == prefix@[m]) && (forall|m: int|
                0 <= m < k ==> lower@[n - 4 + m] == suffix@[m])),
        decreases 4 - k,
    {
        if lower[n - 4 + k] != suffix[k] {
            ok = false;
        }
        k += 1;
    }
    assert(ok == (lower@.take(10) =~= prefix@ && lower@.skip(n - 4) =~= suffix@));
    ok
}

} // verus!
