use crate::model::{
    check_severity, kernel_severity, spec_label, spec_status, CheckResult, CheckResultView,
    KernelResult, KernelResultView, ModuleResult, ModuleResultView, Severity,
};
use crate::json::{
    bool_literal, lemma_parse_render, null_text, parse_json, render, render_elements,
    render_members, JsonValue,
};
use crate::text::{chars_of, join, push_char};
use vstd::prelude::*;

verus! {

/// `char::is_control`: the characters of the general category `Cc`.
pub open spec fn is_control(c: char) -> bool {
    c <= '\u{1f}' || ('\u{7f}' <= c && c <= '\u{9f}')
}

/// The lower-case hexadecimal digit for `n` in `0..16`.
pub open spec fn hex_digit(n: int) -> char {
    if n < 10 {
        (n + 48) as char
    } else {
        (n + 87) as char
    }
}

/// How one character is written inside a JSON string.
pub open spec fn escape_char(c: char) -> Seq<char> {
    if c == '"' {
        seq!['\\', '"']
    } else if c == '\\' {
        seq!['\\', '\\']
    } else if c == '\n' {
        seq!['\\', 'n']
    } else if c == '\r' {
        seq!['\\', 'r']
    } else if c == '\t' {
        seq!['\\', 't']
    } else if is_control(c) {
        let n = c as int;
        seq![
            '\\',
            'u',
            hex_digit(n / 4096 % 16),
            hex_digit(n / 256 % 16),
            hex_digit(n / 16 % 16),
            hex_digit(n % 16),
        ]
    } else {
        seq![c]
    }
}

/// The characters of `s` as they are written inside a JSON string.
pub open spec fn escape(s: Seq<char>) -> Seq<char>
    decreases s.len(),
{
    if s.len() == 0 {
        Seq::empty()
    } else {
        escape(s.drop_last()) + escape_char(s.last())
    }
}

/// `s` as a JSON string literal.
pub open spec fn json_string(s: Seq<char>) -> Seq<char> {
    seq!['"'] + escape(s) + seq!['"']
}

/// The lower-case hexadecimal digit for `n`.
fn hex_digit_char(n: u32) -> (r: char)
    requires
        n < 16,
    ensures
        r == hex_digit(n as int),
{
    let b: u8 = n as u8;
    if b < 10 {
        (b + 48) as char
    } else {
        (b + 87) as char
    }
}

/// Appends how `c` is written inside a JSON string.
fn push_escaped(output: &mut String, c: char)
    ensures
        final(output)@ == old(output)@ + escape_char(c),
{
    if c == '"' {
        output.append("\\\"");
        proof {
            reveal_strlit("\\\"");
        }
    } else if c == '\\' {
        output.append("\\\\");
        proof {
            reveal_strlit("\\\\");
        }
    } else if c == '\n' {
        output.append("\\n");
        proof {
            reveal_strlit("\\n");
        }
    } else if c == '\r' {
        output.append("\\r");
        proof {
            reveal_strlit("\\r");
        }
    } else if c == '\t' {
        output.append("\\t");
        proof {
            reveal_strlit("\\t");
        }
    } else if c <= '\u{1f}' || ('\u{7f}' <= c && c <= '\u{9f}') {
        let n = c as u32;
        let ghost before = output@;
        push_char(output, '\\');
        push_char(output, 'u');
        push_char(output, hex_digit_char(n / 4096 % 16));
        push_char(output, hex_digit_char(n / 256 % 16));
        push_char(output, hex_digit_char(n / 16 % 16));
        push_char(output, hex_digit_char(n % 16));
        assert(output@ == before + escape_char(c));
    } else {
        push_char(output, c);
    }
    assert(final(output)@ == old(output)@ + escape_char(c));
}

/// Appends `value` as a JSON string literal.
pub fn write_json_string(output: &mut String, value: &str)
    ensures
        final(output)@ == old(output)@ + json_string(value@),
{
    let chars = chars_of(value);
    let ghost start = output@;
    push_char(output, '"');
    for i in 0..chars.len()
        invariant
            chars@ == value@,
            output@ == start + seq!['"'] + escape(value@.take(i as int)),
    {
        assert(value@.take(i + 1).drop_last() == value@.take(i as int));
        push_escaped(output, chars[i]);
    }
    assert(value@.take(chars.len() as int) == value@);
    push_char(output, '"');
}


/// `true` or `false`.
pub open spec fn bool_text(b: bool) -> Seq<char> {
    if b {
        "true"@
    } else {
        "false"@
    }
}

/// The JSON fields of one module result up to its message.
pub open spec fn module_json_head(m: ModuleResultView) -> Seq<char> {
    "{\"name\":"@ + json_string(m.policy.name) + ",\"module\":"@ + json_string(m.policy.module)
        + ",\"severity\":\""@ + spec_status(m.severity) + "\",\"message\":"@ + json_string(
        m.message,
    )
}

/// The JSON fields of one module result after its message.
pub open spec fn module_json_tail(m: ModuleResultView) -> Seq<char> {
    ",\"module_found\":"@ + bool_text(m.module_found) + ",\"initrd_found\":"@ + (match m.initrd_found {
        Some(v) => bool_text(v),
        None => "null"@,
    }) + ",\"reason\":"@ + json_string(m.policy.reason) + "}"@
}

/// The JSON object for one module result.
pub open spec fn module_json(m: ModuleResultView) -> Seq<char> {
    module_json_head(m) + module_json_tail(m)
}

/// The JSON fields of one kernel result before its modules.
pub open spec fn kernel_json_head(k: KernelResultView) -> Seq<char> {
    "{\"uname\":"@ + json_string(k.kernel.uname) + ",\"package\":"@ + json_string(k.kernel.package)
        + ",\"running\":"@ + bool_text(k.kernel.running) + ",\"latest\":"@ + bool_text(
        k.kernel.latest,
    ) + ",\"severity\":\""@ + spec_status(kernel_severity(k)) + "\",\"modules\":["@
}

/// The JSON object for one kernel result.
pub open spec fn kernel_json(k: KernelResultView) -> Seq<char> {
    kernel_json_head(k) + join(
        k.module_results.map_values(|m: ModuleResultView| module_json(m)),
        ","@,
    ) + "]}"@
}

/// The JSON report of a check.
pub open spec fn spec_json_output(r: CheckResultView) -> Seq<char> {
    "{\"severity\":\""@ + spec_status(check_severity(r)) + "\",\"diagnostics\":["@ + join(
        r.diagnostics.map_values(|d: Seq<char>| json_string(d)),
        ","@,
    ) + "],\"kernels\":["@ + join(
        r.kernels.map_values(|k: KernelResultView| kernel_json(k)),
        ","@,
    ) + "]}"@
}

/// Appends `true` or `false`.
fn push_bool(output: &mut String, b: bool)
    ensures
        final(output)@ == old(output)@ + bool_text(b),
{
    if b {
        output.append("true");
    } else {
        output.append("false");
    }
}

/// Appends the JSON fields of one module result up to its message.
fn write_module_json_head(output: &mut String, m: &ModuleResult)
    ensures
        final(output)@ == old(output)@ + module_json_head(m@),
{
    let ghost start = output@;
    output.append("{\"name\":");
    write_json_string(output, m.policy.name.as_str());
    output.append(",\"module\":");
    write_json_string(output, m.policy.module.as_str());
    output.append(",\"severity\":\"");
    output.append(m.severity.status());
    output.append("\",\"message\":");
    write_json_string(output, m.message.as_str());
    assert(output@ == start + module_json_head(m@));
}

/// Appends the JSON fields of one module result after its message.
fn write_module_json_tail(output: &mut String, m: &ModuleResult)
    ensures
        final(output)@ == old(output)@ + module_json_tail(m@),
{
    let ghost start = output@;
    output.append(",\"module_found\":");
    push_bool(output, m.module_found);
    output.append(",\"initrd_found\":");
    match m.initrd_found {
        Some(v) => push_bool(output, v),
        None => output.append("null"),
    }
    output.append(",\"reason\":");
    write_json_string(output, m.policy.reason.as_str());
    output.append("}");
    assert(output@ == start + module_json_tail(m@));
}

/// Appends the JSON object for one module result.
fn write_module_json(output: &mut String, m: &ModuleResult)
    ensures
        final(output)@ == old(output)@ + module_json(m@),
{
    let ghost start = output@;
    write_module_json_head(output, m);
    write_module_json_tail(output, m);
    assert(output@ == start + module_json(m@));
}

/// Appends the JSON object for one kernel result.
fn write_kernel_json_head(output: &mut String, k: &KernelResult)
    ensures
        final(output)@ == old(output)@ + kernel_json_head(k@),
{
    let ghost start = output@;
    output.append("{\"uname\":");
    write_json_string(output, k.kernel.uname.as_str());
    output.append(",\"package\":");
    write_json_string(output, k.kernel.package.as_str());
    output.append(",\"running\":");
    push_bool(output, k.kernel.running);
    output.append(",\"latest\":");
    push_bool(output, k.kernel.latest);
    output.append(",\"severity\":\"");
    output.append(k.severity().status());
    output.append("\",\"modules\":[");
    assert(output@ == start + kernel_json_head(k@));
}

/// Appends the JSON object for one kernel result.
#[verifier::rlimit(30)]
#[verifier::spinoff_prover]
fn write_kernel_json(output: &mut String, k: &KernelResult)
    ensures
        final(output)@ == old(output)@ + kernel_json(k@),
{
    let ghost start = output@;
    write_kernel_json_head(output, k);
    let ghost head = output@;
    let ghost pieces = k@.module_results.map_values(|m: ModuleResultView| module_json(m));
    for i in 0..k.module_results.len()
        invariant
            pieces == k@.module_results.map_values(|m: ModuleResultView| module_json(m)),
            pieces.len() == k.module_results.len(),
            output@ == head + join(pieces.take(i as int), ","@),
    {
        assert(pieces.take(i + 1).drop_last() == pieces.take(i as int));
        if i > 0 {
            output.append(",");
        }
        write_module_json(output, &k.module_results[i]);
        assert(k@.module_results[i as int] == k.module_results@[i as int]@);
    }
    assert(pieces.take(k.module_results.len() as int) == pieces);
    output.append("]}");
    assert(output@ == start + kernel_json(k@));
}

/// The report of a check as one JSON object.
pub fn json_output(result: &CheckResult) -> (r: String)
    ensures
        r@ == spec_json_output(result@),
{
    let mut output = String::new();
    output.append("{\"severity\":\"");
    output.append(result.severity().status());
    output.append("\",\"diagnostics\":[");
    let ghost head = output@;
    let ghost dpieces = result@.diagnostics.map_values(|d: Seq<char>| json_string(d));
    for i in 0..result.diagnostics.len()
        invariant
            dpieces == result@.diagnostics.map_values(|d: Seq<char>| json_string(d)),
            dpieces.len() == result.diagnostics.len(),
            output@ == head + join(dpieces.take(i as int), ","@),
    {
        assert(dpieces.take(i + 1).drop_last() == dpieces.take(i as int));
        if i > 0 {
            output.append(",");
        }
        write_json_string(&mut output, result.diagnostics[i].as_str());
    }
    assert(dpieces.take(result.diagnostics.len() as int) == dpieces);
    output.append("],\"kernels\":[");
    let ghost middle = output@;
    let ghost kpieces = result@.kernels.map_values(|k: KernelResultView| kernel_json(k));
    for i in 0..result.kernels.len()
        invariant
            kpieces == result@.kernels.map_values(|k: KernelResultView| kernel_json(k)),
            kpieces.len() == result.kernels.len(),
            output@ == middle + join(kpieces.take(i as int), ","@),
    {
        assert(kpieces.take(i + 1).drop_last() == kpieces.take(i as int));
        if i > 0 {
            output.append(",");
        }
        write_kernel_json(&mut output, &result.kernels[i]);
    }
    assert(kpieces.take(result.kernels.len() as int) == kpieces);
    output.append("]}");
    output
}


/// The pieces one after another.
pub open spec fn concat(pieces: Seq<Seq<char>>) -> Seq<char>
    decreases pieces.len(),
{
    if pieces.len() == 0 {
        Seq::empty()
    } else {
        concat(pieces.drop_last()) + pieces.last()
    }
}

/// The marks of a kernel: `running`, then `latest`, for those that hold.
pub open spec fn kernel_marks(k: KernelResultView) -> Seq<Seq<char>> {
    (if k.kernel.running {
        seq!["running"@]
    } else {
        Seq::empty()
    }) + (if k.kernel.latest {
        seq!["latest"@]
    } else {
        Seq::empty()
    })
}

/// The heading line of a kernel in the human report, without its newline.
pub open spec fn spec_kernel_header(k: KernelResultView) -> Seq<char> {
    let marks = kernel_marks(k);
    spec_label(kernel_severity(k)) + ": kernel "@ + k.kernel.uname + (if marks.len() == 0 {
        Seq::empty()
    } else {
        " ("@ + join(marks, ", "@) + ")"@
    })
}

/// The heading line of a kernel in the human report, such as
/// `WARN: kernel 6.4.0-1-default (running, latest)`.
pub fn kernel_header(result: &KernelResult) -> (r: String)
    ensures
        r@ == spec_kernel_header(result@),
{
    let mut out = String::from_str(result.severity().label());
    out.append(": kernel ");
    out.append(result.kernel.uname.as_str());
    let running = result.kernel.running;
    let latest = result.kernel.latest;
    if running && latest {
        out.append(" (running, latest)");
        proof {
            reveal_strlit(" (running, latest)");
            reveal_strlit(" (");
            reveal_strlit(")");
            reveal_strlit(", ");
            reveal_strlit("running");
            reveal_strlit("latest");
            let marks = seq!["running"@, "latest"@];
            assert(kernel_marks(result@) == marks);
            assert(marks.drop_last() == seq!["running"@]);
            assert(join(seq!["running"@], ", "@) == "running"@);
            assert(join(marks, ", "@) == "running"@ + ", "@ + "latest"@);
        }
    } else if running {
        out.append(" (running)");
        proof {
            reveal_strlit(" (running)");
            reveal_strlit(" (");
            reveal_strlit(")");
            reveal_strlit("running");
        }
    } else if latest {
        out.append(" (latest)");
        proof {
            reveal_strlit(" (latest)");
            reveal_strlit(" (");
            reveal_strlit(")");
            reveal_strlit("latest");
        }
    }
    out
}

/// `yes` or `no`.
pub open spec fn yes_no(b: bool) -> Seq<char> {
    if b {
        "yes"@
    } else {
        "no"@
    }
}

/// The initrd column of a module line.
pub open spec fn initrd_text(found: Option<bool>) -> Seq<char> {
    match found {
        Some(true) => "yes"@,
        Some(false) => "no"@,
        None => "not-checked"@,
    }
}

/// The line of one module result in the human report.
pub open spec fn module_line(m: ModuleResultView) -> Seq<char> {
    "  "@ + spec_label(m.severity) + ": "@ + m.policy.name + ": "@ + m.message + "; module="@
        + yes_no(m.module_found) + "; initrd="@ + initrd_text(m.initrd_found) + "; reason="@
        + m.policy.reason + "\n"@
}

/// The lines of one kernel result in the human report.
pub open spec fn kernel_lines(k: KernelResultView) -> Seq<char> {
    spec_kernel_header(k) + "\n"@ + (if k.module_results.len() == 0 {
        "  OK: no module policy applies\n"@
    } else {
        concat(k.module_results.map_values(|m: ModuleResultView| module_line(m)))
    })
}

/// The human report of a check.
pub open spec fn spec_human_output(r: CheckResultView) -> Seq<char> {
    "KMP boot check\n"@ + concat(r.diagnostics.map_values(|d: Seq<char>| "UNKNOWN: "@ + d + "\n"@))
        + concat(r.kernels.map_values(|k: KernelResultView| kernel_lines(k)))
}

/// Appends the line of one module result.
fn write_module_line(output: &mut String, m: &ModuleResult)
    ensures
        final(output)@ == old(output)@ + module_line(m@),
{
    let ghost start = output@;
    output.append("  ");
    output.append(m.severity.label());
    output.append(": ");
    output.append(m.policy.name.as_str());
    output.append(": ");
    output.append(m.message.as_str());
    output.append("; module=");
    output.append(if m.module_found { "yes" } else { "no" });
    output.append("; initrd=");
    let initrd = match m.initrd_found {
        Some(true) => "yes",
        Some(false) => "no",
        None => "not-checked",
    };
    output.append(initrd);
    output.append("; reason=");
    output.append(m.policy.reason.as_str());
    output.append("\n");
    assert(output@ == start + module_line(m@));
}

/// Appends the lines of one kernel result.
fn write_kernel_lines(output: &mut String, k: &KernelResult)
    ensures
        final(output)@ == old(output)@ + kernel_lines(k@),
{
    let ghost start = output@;
    let header = kernel_header(k);
    output.append(header.as_str());
    output.append("\n");
    if k.module_results.len() == 0 {
        output.append("  OK: no module policy applies\n");
        return;
    }
    let ghost head = output@;
    let ghost pieces = k@.module_results.map_values(|m: ModuleResultView| module_line(m));
    for i in 0..k.module_results.len()
        invariant
            pieces == k@.module_results.map_values(|m: ModuleResultView| module_line(m)),
            pieces.len() == k.module_results.len(),
            output@ == head + concat(pieces.take(i as int)),
    {
        assert(pieces.take(i + 1).drop_last() == pieces.take(i as int));
        write_module_line(output, &k.module_results[i]);
        assert(k@.module_results[i as int] == k.module_results@[i as int]@);
    }
    assert(pieces.take(k.module_results.len() as int) == pieces);
}

/// The report of a check as text for people.
pub fn human_output(result: &CheckResult) -> (r: String)
    ensures
        r@ == spec_human_output(result@),
{
    let mut output = String::from_str("KMP boot check\n");
    let ghost head = output@;
    let ghost dpieces = result@.diagnostics.map_values(|d: Seq<char>| "UNKNOWN: "@ + d + "\n"@);
    for i in 0..result.diagnostics.len()
        invariant
            dpieces == result@.diagnostics.map_values(|d: Seq<char>| "UNKNOWN: "@ + d + "\n"@),
            dpieces.len() == result.diagnostics.len(),
            output@ == head + concat(dpieces.take(i as int)),
    {
        assert(dpieces.take(i + 1).drop_last() == dpieces.take(i as int));
        output.append("UNKNOWN: ");
        output.append(result.diagnostics[i].as_str());
        output.append("\n");
    }
    assert(dpieces.take(result.diagnostics.len() as int) == dpieces);
    let ghost middle = output@;
    let ghost kpieces = result@.kernels.map_values(|k: KernelResultView| kernel_lines(k));
    for i in 0..result.kernels.len()
        invariant
            kpieces == result@.kernels.map_values(|k: KernelResultView| kernel_lines(k)),
            kpieces.len() == result.kernels.len(),
            output@ == middle + concat(kpieces.take(i as int)),
    {
        assert(kpieces.take(i + 1).drop_last() == kpieces.take(i as int));
        write_kernel_lines(&mut output, &result.kernels[i]);
    }
    assert(kpieces.take(result.kernels.len() as int) == kpieces);
    output
}


/// The value of a hexadecimal digit.
pub open spec fn hex_value(c: char) -> Option<int> {
    if '0' <= c && c <= '9' {
        Some(c as int - '0' as int)
    } else if 'a' <= c && c <= 'f' {
        Some(c as int - 'a' as int + 10)
    } else if 'A' <= c && c <= 'F' {
        Some(c as int - 'A' as int + 10)
    } else {
        None
    }
}

/// The character that a two-character JSON escape `\e` stands for.
pub open spec fn short_escape(e: char) -> Option<char> {
    if e == '"' {
        Some('"')
    } else if e == '\\' {
        Some('\\')
    } else if e == '/' {
        Some('/')
    } else if e == 'b' {
        Some('\u{8}')
    } else if e == 'f' {
        Some('\u{c}')
    } else if e == 'n' {
        Some('\n')
    } else if e == 'r' {
        Some('\r')
    } else if e == 't' {
        Some('\t')
    } else {
        None
    }
}

/// The characters that the inside of a JSON string stands for: `\e` for the
/// short escapes, `\uXXXX` for a code point, anything else for itself.
pub open spec fn unescape(s: Seq<char>) -> Seq<char>
    decreases s.len(),
{
    if s.len() == 0 {
        Seq::empty()
    } else if s[0] == '\\' && s.len() >= 2 && short_escape(s[1]) is Some {
        seq![short_escape(s[1])->0] + unescape(s.skip(2))
    } else if s[0] == '\\' && s.len() >= 6 && s[1] == 'u' && hex_value(s[2]) is Some && hex_value(
        s[3],
    ) is Some && hex_value(s[4]) is Some && hex_value(s[5]) is Some {
        seq![
            (hex_value(s[2])->0 * 4096 + hex_value(s[3])->0 * 256 + hex_value(s[4])->0 * 16
                + hex_value(s[5])->0) as char,
        ] + unescape(s.skip(6))
    } else {
        seq![s[0]] + unescape(s.drop_first())
    }
}

pub(crate) proof fn lemma_escape_front(s: Seq<char>)
    requires
        s.len() > 0,
    ensures
        escape(s) == escape_char(s[0]) + escape(s.drop_first()),
    decreases s.len(),
{
    if s.len() > 1 {
        lemma_escape_front(s.drop_last());
        assert(s.drop_last().drop_first() == s.drop_first().drop_last());
        assert(s.drop_last()[0] == s[0]);
        assert(s.drop_first().last() == s.last());
    } else {
        assert(s.drop_last() == Seq::<char>::empty());
        assert(s.drop_first() == Seq::<char>::empty());
    }
}

pub(crate) proof fn lemma_hex_digit_value(n: int)
    requires
        0 <= n < 16,
    ensures
        hex_value(hex_digit(n)) == Some(n),
{
}

proof fn lemma_unescape_char(c: char, rest: Seq<char>)
    ensures
        unescape(escape_char(c) + rest) == seq![c] + unescape(rest),
{
    let e = escape_char(c) + rest;
    if c == '"' || c == '\\' || c == '\n' || c == '\r' || c == '\t' {
        assert(e.skip(2) == rest);
    } else if is_control(c) {
        let n = c as int;
        let v = c as u32;
        assert(v / 4096 % 16 * 4096 + v / 256 % 16 * 256 + v / 16 % 16 * 16 + v % 16 == v
            ) by (bit_vector)
            requires
                v <= 0x9f,
        ;
        lemma_hex_digit_value(n / 4096 % 16);
        lemma_hex_digit_value(n / 256 % 16);
        lemma_hex_digit_value(n / 16 % 16);
        lemma_hex_digit_value(n % 16);
        assert(e.skip(6) == rest);
        assert(e[2] == hex_digit(n / 4096 % 16));
        assert(short_escape('u') is None);
    } else {
        assert(e.drop_first() == rest);
    }
}

/// Reading a JSON string back gives the text that was written: the
/// escaping loses nothing.
pub proof fn lemma_json_escape_roundtrip(s: Seq<char>)
    ensures
        unescape(escape(s)) == s,
    decreases s.len(),
{
    if s.len() > 0 {
        lemma_escape_front(s);
        lemma_unescape_char(s[0], escape(s.drop_first()));
        lemma_json_escape_roundtrip(s.drop_first());
        assert(s == seq![s[0]] + s.drop_first());
    }
}

/// The written text holds no raw control character, so the JSON string
/// stays on one line and is valid.
pub proof fn lemma_json_escape_has_no_controls(s: Seq<char>)
    ensures
        forall|i: int| 0 <= i < escape(s).len() ==> !is_control(#[trigger] escape(s)[i]),
    decreases s.len(),
{
    if s.len() > 0 {
        lemma_json_escape_has_no_controls(s.drop_last());
        let a = escape(s.drop_last());
        let b = escape_char(s.last());
        assert forall|i: int| 0 <= i < escape(s).len() implies !is_control(
            #[trigger] escape(s)[i],
        ) by {
            if i < a.len() {
                assert(escape(s)[i] == a[i]);
            } else {
                assert(escape(s)[i] == b[i - a.len()]);
                if is_control(s.last()) && !(s.last() == '\n' || s.last() == '\r' || s.last() == '\t') {
                    let n = s.last() as int;
                    assert(0 <= n / 4096 % 16 < 16);
                    assert(0 <= n / 256 % 16 < 16);
                    assert(0 <= n / 16 % 16 < 16);
                    assert(0 <= n % 16 < 16);
                }
            }
        }
    }
}


/// No character of `s` is written as an escape.
pub open spec fn plain_text(s: Seq<char>) -> bool {
    forall|i: int| 0 <= i < s.len() ==> #[trigger] escape_char(s[i]) == seq![s[i]]
}

/// Text without characters that need an escape is written as it is.
proof fn lemma_escape_plain(s: Seq<char>)
    requires
        plain_text(s),
    ensures
        escape(s) == s,
    decreases s.len(),
{
    if s.len() > 0 {
        let d = s.drop_last();
        assert forall|i: int| 0 <= i < d.len() implies #[trigger] escape_char(d[i]) == seq![d[i]] by {
            assert(d[i] == s[i]);
        }
        lemma_escape_plain(d);
        assert(escape_char(s[s.len() - 1]) == seq![s.last()]);
        assert(s == d.push(s.last()));
    }
}

/// A status is written as it is.
proof fn lemma_status_plain(sev: Severity)
    ensures
        escape(spec_status(sev)) == spec_status(sev),
{
    reveal_strlit("ok");
    reveal_strlit("warn");
    reveal_strlit("risk");
    reveal_strlit("unknown");
    lemma_escape_plain(spec_status(sev));
}

/// `"key":` as written in the reports.
proof fn lemma_key_text(key: Seq<char>)
    requires
        plain_text(key),
    ensures
        json_string(key) == seq!['"'] + key + seq!['"'],
{
    lemma_escape_plain(key);
}

/// The JSON value of one module result.
pub open spec fn module_value(m: ModuleResultView) -> JsonValue {
    let initrd_found = match m.initrd_found {
        Some(b) => JsonValue::Bool(b),
        None => JsonValue::Null,
    };
    JsonValue::Object(
        seq![
            ("name"@, JsonValue::Str(m.policy.name)),
            ("module"@, JsonValue::Str(m.policy.module)),
            ("severity"@, JsonValue::Str(spec_status(m.severity))),
            ("message"@, JsonValue::Str(m.message)),
            ("module_found"@, JsonValue::Bool(m.module_found)),
            ("initrd_found"@, initrd_found),
            ("reason"@, JsonValue::Str(m.policy.reason)),
        ],
    )
}

/// `"key":value` as written inside an object.
pub open spec fn member_text(key: Seq<char>, v: JsonValue) -> Seq<char> {
    json_string(key) + seq![':'] + render(v)
}

/// The first member of an object's text, then the others.
proof fn lemma_render_members_front(ms: Seq<(Seq<char>, JsonValue)>)
    requires
        ms.len() > 0,
    ensures
        ms.len() == 1 ==> render_members(ms) == member_text(ms[0].0, ms[0].1),
        ms.len() >= 2 ==> render_members(ms) == member_text(ms[0].0, ms[0].1) + seq![','] + render_members(ms.drop_first()),
{
}

/// How the keys of a module result are written.
proof fn lemma_module_keys()
    ensures
        "{\"name\":"@ == seq!['{'] + json_string("name"@) + seq![':'],
        ",\"module\":"@ == seq![','] + json_string("module"@) + seq![':'],
        ",\"severity\":\""@ == seq![','] + json_string("severity"@) + seq![':'] + seq!['"'],
        "\",\"message\":"@ == seq!['"'] + seq![','] + json_string("message"@) + seq![':'],
        ",\"module_found\":"@ == seq![','] + json_string("module_found"@) + seq![':'],
        ",\"initrd_found\":"@ == seq![','] + json_string("initrd_found"@) + seq![':'],
        ",\"reason\":"@ == seq![','] + json_string("reason"@) + seq![':'],
        "}"@ == seq!['}'],
{
    reveal_strlit("name");
    reveal_strlit("module");
    reveal_strlit("severity");
    reveal_strlit("message");
    reveal_strlit("module_found");
    reveal_strlit("initrd_found");
    reveal_strlit("reason");
    reveal_strlit("{\"name\":");
    reveal_strlit(",\"module\":");
    reveal_strlit(",\"severity\":\"");
    reveal_strlit("\",\"message\":");
    reveal_strlit(",\"module_found\":");
    reveal_strlit(",\"initrd_found\":");
    reveal_strlit(",\"reason\":");
    reveal_strlit("}");
    lemma_key_text("name"@);
    lemma_key_text("module"@);
    lemma_key_text("severity"@);
    lemma_key_text("message"@);
    lemma_key_text("module_found"@);
    lemma_key_text("initrd_found"@);
    lemma_key_text("reason"@);
}

/// How booleans and `null` are written.
proof fn lemma_literals()
    ensures
        forall|b: bool| #[trigger] bool_text(b) == bool_literal(b),
        "null"@ == null_text(),
{
    reveal_strlit("true");
    reveal_strlit("false");
    reveal_strlit("null");
}

/// The written head of a module result, regrouped member by member.
proof fn lemma_module_head_text(
    l1: Seq<char>, jn: Seq<char>, l2: Seq<char>, jmod: Seq<char>, l3: Seq<char>, st: Seq<char>,
    l4: Seq<char>, jmsg: Seq<char>, k1: Seq<char>, k2: Seq<char>, k3: Seq<char>, k4: Seq<char>,
)
    requires
        l1 == seq!['{'] + k1 + seq![':'],
        l2 == seq![','] + k2 + seq![':'],
        l3 == seq![','] + k3 + seq![':'] + seq!['"'],
        l4 == seq!['"'] + seq![','] + k4 + seq![':'],
    ensures
        l1 + jn + l2 + jmod + l3 + st + l4 + jmsg == seq!['{'] + (k1 + seq![':'] + jn) + seq![',']
            + (k2 + seq![':'] + jmod) + seq![','] + (k3 + seq![':'] + (seq!['"'] + st + seq!['"']))
            + seq![','] + (k4 + seq![':'] + jmsg),
{
    let c = seq![':'];
    let k = seq![','];
    let q = seq!['"'];
    let x1 = seq!['{'] + (k1 + c + jn);
    assert(l1 + jn =~= x1);
    let x2 = x1 + k + (k2 + c + jmod);
    assert(x1 + l2 + jmod =~= x2);
    let x3 = x2 + k + (k3 + c + (q + st + q));
    assert(x2 + l3 + st =~= x2 + k + k3 + c + q + st);
    assert(x2 + k + k3 + c + q + st + l4 =~= x3 + k + k4 + c);
    assert(x3 + k + k4 + c + jmsg =~= x3 + k + (k4 + c + jmsg));
}

/// The written tail of a module result, regrouped member by member.
proof fn lemma_module_tail_text(
    l5: Seq<char>, bm: Seq<char>, l6: Seq<char>, bi: Seq<char>, l7: Seq<char>, jr: Seq<char>,
    l8: Seq<char>, k5: Seq<char>, k6: Seq<char>, k7: Seq<char>,
)
    requires
        l5 == seq![','] + k5 + seq![':'],
        l6 == seq![','] + k6 + seq![':'],
        l7 == seq![','] + k7 + seq![':'],
        l8 == seq!['}'],
    ensures
        l5 + bm + l6 + bi + l7 + jr + l8 == seq![','] + (k5 + seq![':'] + bm) + seq![','] + (k6
            + seq![':'] + bi) + seq![','] + (k7 + seq![':'] + jr) + seq!['}'],
{
    let c = seq![':'];
    let k = seq![','];
    let x1 = k + (k5 + c + bm);
    assert(l5 + bm =~= x1);
    let x2 = x1 + k + (k6 + c + bi);
    assert(x1 + l6 + bi =~= x2);
    assert(x2 + l7 + jr =~= x2 + k + (k7 + c + jr));
}

/// The text of seven members, one after another.
proof fn lemma_members_seven(ms: Seq<(Seq<char>, JsonValue)>)
    requires
        ms.len() == 7,
    ensures
        render_members(ms) == member_text(ms[0].0, ms[0].1) + seq![','] + member_text(ms[1].0, ms[1].1)
            + seq![','] + member_text(ms[2].0, ms[2].1) + seq![','] + member_text(ms[3].0, ms[3].1)
            + (seq![','] + member_text(ms[4].0, ms[4].1) + seq![','] + member_text(ms[5].0, ms[5].1)
            + seq![','] + member_text(ms[6].0, ms[6].1)),
{
    let k = seq![','];
    let ms1 = ms.drop_first();
    let ms2 = ms1.drop_first();
    let ms3 = ms2.drop_first();
    let ms4 = ms3.drop_first();
    let ms5 = ms4.drop_first();
    let ms6 = ms5.drop_first();
    lemma_render_members_front(ms);
    lemma_render_members_front(ms1);
    lemma_render_members_front(ms2);
    lemma_render_members_front(ms3);
    lemma_render_members_front(ms4);
    lemma_render_members_front(ms5);
    lemma_render_members_front(ms6);
    let a1 = member_text(ms[0].0, ms[0].1);
    let a2 = member_text(ms[1].0, ms[1].1);
    let a3 = member_text(ms[2].0, ms[2].1);
    let a4 = member_text(ms[3].0, ms[3].1);
    let a5 = member_text(ms[4].0, ms[4].1);
    let a6 = member_text(ms[5].0, ms[5].1);
    let a7 = member_text(ms[6].0, ms[6].1);
    assert(ms6[0] == ms[6] && ms5[0] == ms[5] && ms4[0] == ms[4] && ms3[0] == ms[3]);
    assert(ms2[0] == ms[2] && ms1[0] == ms[1]);
    let t = k + a5 + k + a6 + k + a7;
    assert(render_members(ms4) =~= a5 + k + a6 + k + a7);
    assert(render_members(ms3) =~= a4 + t);
    assert(render_members(ms2) =~= a3 + k + a4 + t);
    assert(render_members(ms1) =~= a2 + k + a3 + k + a4 + t);
    assert(render_members(ms) =~= a1 + k + a2 + k + a3 + k + a4 + t);
}

/// The first four members of a module result, as written.
spec fn module_front_text(m: ModuleResultView) -> Seq<char> {
    let c = seq![':'];
    let k = seq![','];
    let q = seq!['"'];
    json_string("name"@) + c + json_string(m.policy.name) + k + (json_string("module"@) + c
        + json_string(m.policy.module)) + k + (json_string("severity"@) + c + (q + spec_status(
        m.severity,
    ) + q)) + k + (json_string("message"@) + c + json_string(m.message))
}

/// The last three members of a module result, after a comma.
spec fn module_back_text(m: ModuleResultView) -> Seq<char> {
    let c = seq![':'];
    let k = seq![','];
    k + (json_string("module_found"@) + c + bool_text(m.module_found)) + k + (json_string(
        "initrd_found"@,
    ) + c + (match m.initrd_found {
        Some(v) => bool_text(v),
        None => "null"@,
    })) + k + (json_string("reason"@) + c + json_string(m.policy.reason))
}

/// The JSON value of a module result, written member by member.
#[verifier::spinoff_prover]
proof fn lemma_module_value_text(m: ModuleResultView)
    ensures
        render(module_value(m)) == seq!['{'] + (module_front_text(m) + module_back_text(m)) + seq!['}'],
{
    let ms = match module_value(m) {
        JsonValue::Object(ms) => ms,
        _ => Seq::empty(),
    };
    lemma_literals();
    lemma_status_plain(m.severity);
    lemma_members_seven(ms);
    assert(render(ms[5].1) == (match m.initrd_found {
        Some(v) => bool_text(v),
        None => "null"@,
    }));
}

/// The written head of a module result holds its first four members.
#[verifier::spinoff_prover]
proof fn lemma_module_head_is_front(m: ModuleResultView)
    ensures
        module_json_head(m) == seq!['{'] + module_front_text(m),
{
    lemma_module_keys();
    lemma_module_head_text(
        "{\"name\":"@, json_string(m.policy.name), ",\"module\":"@, json_string(m.policy.module),
        ",\"severity\":\""@, spec_status(m.severity), "\",\"message\":"@, json_string(m.message),
        json_string("name"@), json_string("module"@), json_string("severity"@), json_string("message"@),
    );
}

/// The written tail of a module result holds its last three members.
#[verifier::spinoff_prover]
proof fn lemma_module_tail_is_back(m: ModuleResultView)
    ensures
        module_json_tail(m) == module_back_text(m) + seq!['}'],
{
    lemma_module_keys();
    lemma_module_tail_text(
        ",\"module_found\":"@, bool_text(m.module_found), ",\"initrd_found\":"@, (match m.initrd_found {
            Some(v) => bool_text(v),
            None => "null"@,
        }), ",\"reason\":"@, json_string(m.policy.reason), "}"@,
        json_string("module_found"@), json_string("initrd_found"@), json_string("reason"@),
    );
}

/// A module result is written as its JSON value.
proof fn lemma_module_render(m: ModuleResultView)
    ensures
        render(module_value(m)) == module_json(m),
{
    lemma_module_value_text(m);
    lemma_module_head_is_front(m);
    lemma_module_tail_is_back(m);
    let p = module_front_text(m);
    let t = module_back_text(m);
    assert(seq!['{'] + (p + t) + seq!['}'] =~= (seq!['{'] + p) + (t + seq!['}']));
}

/// `join` taken from the front: the first piece, the separator, the rest.
proof fn lemma_join_front(pieces: Seq<Seq<char>>, sep: Seq<char>)
    requires
        pieces.len() >= 2,
    ensures
        join(pieces, sep) == pieces[0] + sep + join(pieces.drop_first(), sep),
    decreases pieces.len(),
{
    let d = pieces.drop_first();
    let l = pieces.drop_last();
    assert(l[0] == pieces[0]);
    assert(d.last() == pieces.last());
    if pieces.len() == 2 {
        assert(join(l, sep) == pieces[0]);
        assert(join(d, sep) == pieces.last());
    } else {
        lemma_join_front(l, sep);
        assert(l.drop_first() == d.drop_last());
        let j = join(d.drop_last(), sep);
        assert(join(l, sep) == pieces[0] + sep + j);
        assert(join(d, sep) == j + sep + d.last());
        assert(pieces[0] + sep + j + sep + pieces.last() =~= pieces[0] + sep + (j + sep + d.last()));
    }
}

/// The elements of an array are written as the texts of its values joined
/// by commas.
proof fn lemma_render_elements_join(vs: Seq<JsonValue>)
    ensures
        render_elements(vs) == join(vs.map_values(|v: JsonValue| render(v)), seq![',']),
    decreases vs.len(),
{
    let pieces = vs.map_values(|v: JsonValue| render(v));
    if vs.len() == 1 {
        assert(pieces.len() == 1);
    } else if vs.len() >= 2 {
        let d = vs.drop_first();
        assert(vs.subrange(1, vs.len() as int) == d);
        lemma_render_elements_join(d);
        lemma_join_front(pieces, seq![',']);
        assert(pieces.drop_first() == d.map_values(|v: JsonValue| render(v)));
    }
}

/// The JSON value of one kernel result.
pub open spec fn kernel_value(k: KernelResultView) -> JsonValue {
    JsonValue::Object(
        seq![
            ("uname"@, JsonValue::Str(k.kernel.uname)),
            ("package"@, JsonValue::Str(k.kernel.package)),
            ("running"@, JsonValue::Bool(k.kernel.running)),
            ("latest"@, JsonValue::Bool(k.kernel.latest)),
            ("severity"@, JsonValue::Str(spec_status(kernel_severity(k)))),
            ("modules"@, JsonValue::Array(k.module_results.map_values(|m: ModuleResultView| module_value(m)))),
        ],
    )
}

/// How the keys of a kernel result are written.
proof fn lemma_kernel_keys()
    ensures
        "{\"uname\":"@ == seq!['{'] + json_string("uname"@) + seq![':'],
        ",\"package\":"@ == seq![','] + json_string("package"@) + seq![':'],
        ",\"running\":"@ == seq![','] + json_string("running"@) + seq![':'],
        ",\"latest\":"@ == seq![','] + json_string("latest"@) + seq![':'],
        ",\"severity\":\""@ == seq![','] + json_string("severity"@) + seq![':'] + seq!['"'],
        "\",\"modules\":["@ == seq!['"'] + seq![','] + json_string("modules"@) + seq![':'] + seq!['['],
        "]}"@ == seq![']'] + seq!['}'],
        ","@ == seq![','],
{
    reveal_strlit("uname");
    reveal_strlit("package");
    reveal_strlit("running");
    reveal_strlit("latest");
    reveal_strlit("severity");
    reveal_strlit("modules");
    reveal_strlit("{\"uname\":");
    reveal_strlit(",\"package\":");
    reveal_strlit(",\"running\":");
    reveal_strlit(",\"latest\":");
    reveal_strlit(",\"severity\":\"");
    reveal_strlit("\",\"modules\":[");
    reveal_strlit("]}");
    reveal_strlit(",");
    lemma_key_text("uname"@);
    lemma_key_text("package"@);
    lemma_key_text("running"@);
    lemma_key_text("latest"@);
    lemma_key_text("severity"@);
    lemma_key_text("modules"@);
}

/// The text of six members, one after another.
proof fn lemma_members_six(ms: Seq<(Seq<char>, JsonValue)>)
    requires
        ms.len() == 6,
    ensures
        render_members(ms) == member_text(ms[0].0, ms[0].1) + seq![','] + member_text(ms[1].0, ms[1].1)
            + seq![','] + member_text(ms[2].0, ms[2].1) + seq![','] + member_text(ms[3].0, ms[3].1)
            + seq![','] + member_text(ms[4].0, ms[4].1) + seq![','] + member_text(ms[5].0, ms[5].1),
{
    let k = seq![','];
    let ms1 = ms.drop_first();
    let ms2 = ms1.drop_first();
    let ms3 = ms2.drop_first();
    let ms4 = ms3.drop_first();
    let ms5 = ms4.drop_first();
    lemma_render_members_front(ms);
    lemma_render_members_front(ms1);
    lemma_render_members_front(ms2);
    lemma_render_members_front(ms3);
    lemma_render_members_front(ms4);
    lemma_render_members_front(ms5);
    let a1 = member_text(ms[0].0, ms[0].1);
    let a2 = member_text(ms[1].0, ms[1].1);
    let a3 = member_text(ms[2].0, ms[2].1);
    let a4 = member_text(ms[3].0, ms[3].1);
    let a5 = member_text(ms[4].0, ms[4].1);
    let a6 = member_text(ms[5].0, ms[5].1);
    assert(ms5[0] == ms[5] && ms4[0] == ms[4] && ms3[0] == ms[3]);
    assert(ms2[0] == ms[2] && ms1[0] == ms[1]);
    assert(render_members(ms4) =~= a5 + k + a6);
    assert(render_members(ms3) =~= a4 + k + a5 + k + a6);
    assert(render_members(ms2) =~= a3 + k + a4 + k + a5 + k + a6);
    assert(render_members(ms1) =~= a2 + k + a3 + k + a4 + k + a5 + k + a6);
    assert(render_members(ms) =~= a1 + k + a2 + k + a3 + k + a4 + k + a5 + k + a6);
}

/// The written head of a kernel result, regrouped member by member.
proof fn lemma_kernel_head_text(
    l1: Seq<char>, ju: Seq<char>, l2: Seq<char>, jp: Seq<char>, l3: Seq<char>, br: Seq<char>,
    l4: Seq<char>, bl: Seq<char>, l5: Seq<char>, st: Seq<char>, l6: Seq<char>, k1: Seq<char>,
    k2: Seq<char>, k3: Seq<char>, k4: Seq<char>, k5: Seq<char>, k6: Seq<char>,
)
    requires
        l1 == seq!['{'] + k1 + seq![':'],
        l2 == seq![','] + k2 + seq![':'],
        l3 == seq![','] + k3 + seq![':'],
        l4 == seq![','] + k4 + seq![':'],
        l5 == seq![','] + k5 + seq![':'] + seq!['"'],
        l6 == seq!['"'] + seq![','] + k6 + seq![':'] + seq!['['],
    ensures
        l1 + ju + l2 + jp + l3 + br + l4 + bl + l5 + st + l6 == seq!['{'] + (k1 + seq![':'] + ju)
            + seq![','] + (k2 + seq![':'] + jp) + seq![','] + (k3 + seq![':'] + br) + seq![',']
            + (k4 + seq![':'] + bl) + seq![','] + (k5 + seq![':'] + (seq!['"'] + st + seq!['"']))
            + seq![','] + k6 + seq![':'] + seq!['['],
{
    let c = seq![':'];
    let k = seq![','];
    let q = seq!['"'];
    let x1 = seq!['{'] + (k1 + c + ju);
    assert(l1 + ju =~= x1);
    let x2 = x1 + k + (k2 + c + jp);
    assert(x1 + l2 + jp =~= x2);
    let x3 = x2 + k + (k3 + c + br);
    assert(x2 + l3 + br =~= x3);
    let x4 = x3 + k + (k4 + c + bl);
    assert(x3 + l4 + bl =~= x4);
    assert(x4 + l5 + st =~= x4 + k + k5 + c + q + st);
    assert(x4 + k + k5 + c + q + st + l6 =~= x4 + k + (k5 + c + (q + st + q)) + k + k6 + c + seq!['[']);
}

/// The module results of a kernel are written as their JSON values.
proof fn lemma_modules_render(mr: Seq<ModuleResultView>)
    ensures
        render_elements(mr.map_values(|m: ModuleResultView| module_value(m))) == join(
            mr.map_values(|m: ModuleResultView| module_json(m)),
            ","@,
        ),
{
    let vs = mr.map_values(|m: ModuleResultView| module_value(m));
    let rv = vs.map_values(|v: JsonValue| render(v));
    let mj = mr.map_values(|m: ModuleResultView| module_json(m));
    lemma_render_elements_join(vs);
    lemma_kernel_keys();
    assert forall|i: int| 0 <= i < rv.len() implies #[trigger] rv[i] == mj[i] by {
        lemma_module_render(mr[i]);
    }
    assert(rv =~= mj);
}

/// Concatenation is associative.
proof fn lemma_add_assoc(x: Seq<char>, y: Seq<char>, z: Seq<char>)
    ensures
        x + (y + z) == x + y + z,
{
    assert(x + (y + z) =~= x + y + z);
}

/// The members of a kernel result before its modules, each followed by a
/// comma, as written.
spec fn kernel_prefix_text(kr: KernelResultView) -> Seq<char> {
    let c = seq![':'];
    let k = seq![','];
    let q = seq!['"'];
    json_string("uname"@) + c + json_string(kr.kernel.uname) + k + (json_string("package"@) + c
        + json_string(kr.kernel.package)) + k + (json_string("running"@) + c + bool_text(
        kr.kernel.running,
    )) + k + (json_string("latest"@) + c + bool_text(kr.kernel.latest)) + k + (json_string(
        "severity"@,
    ) + c + (q + spec_status(kernel_severity(kr)) + q)) + k
}

/// The module results of a kernel result as written, without brackets.
spec fn kernel_modules_text(kr: KernelResultView) -> Seq<char> {
    join(kr.module_results.map_values(|m: ModuleResultView| module_json(m)), ","@)
}

/// The JSON value of a kernel result, written member by member.
#[verifier::rlimit(40)]
#[verifier::spinoff_prover]
proof fn lemma_kernel_members(kr: KernelResultView)
    ensures
        render(kernel_value(kr)) == seq!['{'] + (kernel_prefix_text(kr) + (json_string("modules"@) + seq![':']
            + (seq!['['] + kernel_modules_text(kr) + seq![']']))) + seq!['}'],
{
    let ms = match kernel_value(kr) {
        JsonValue::Object(ms) => ms,
        _ => Seq::empty(),
    };
    lemma_literals();
    lemma_status_plain(kernel_severity(kr));
    lemma_members_six(ms);
    lemma_modules_render(kr.module_results);
}

/// The written head of a kernel result holds its members before the
/// modules.
#[verifier::spinoff_prover]
proof fn lemma_kernel_head_is_prefix(kr: KernelResultView)
    ensures
        kernel_json_head(kr) == seq!['{'] + kernel_prefix_text(kr) + json_string("modules"@) + seq![':']
            + seq!['['],
{
    let c = seq![':'];
    let k = seq![','];
    let q = seq!['"'];
    let st = spec_status(kernel_severity(kr));
    lemma_kernel_keys();
    lemma_kernel_head_text(
        "{\"uname\":"@, json_string(kr.kernel.uname), ",\"package\":"@, json_string(kr.kernel.package),
        ",\"running\":"@, bool_text(kr.kernel.running), ",\"latest\":"@, bool_text(kr.kernel.latest),
        ",\"severity\":\""@, st, "\",\"modules\":["@, json_string("uname"@), json_string("package"@),
        json_string("running"@), json_string("latest"@), json_string("severity"@), json_string("modules"@),
    );
    let a1 = json_string("uname"@) + c + json_string(kr.kernel.uname);
    let a2 = json_string("package"@) + c + json_string(kr.kernel.package);
    let a3 = json_string("running"@) + c + bool_text(kr.kernel.running);
    let a4 = json_string("latest"@) + c + bool_text(kr.kernel.latest);
    let a5 = json_string("severity"@) + c + (q + st + q);
    let b = seq!['{'];
    lemma_add_assoc(b, a1 + k + a2 + k + a3 + k + a4 + k + a5, k);
    lemma_add_assoc(b, a1 + k + a2 + k + a3 + k + a4 + k, a5);
    lemma_add_assoc(b, a1 + k + a2 + k + a3 + k + a4, k);
    lemma_add_assoc(b, a1 + k + a2 + k + a3 + k, a4);
    lemma_add_assoc(b, a1 + k + a2 + k + a3, k);
    lemma_add_assoc(b, a1 + k + a2 + k, a3);
    lemma_add_assoc(b, a1 + k + a2, k);
    lemma_add_assoc(b, a1 + k, a2);
    lemma_add_assoc(b, a1, k);
}

/// A kernel result is written as its JSON value.
proof fn lemma_kernel_render(kr: KernelResultView)
    ensures
        render(kernel_value(kr)) == kernel_json(kr),
{
    lemma_kernel_members(kr);
    lemma_kernel_head_is_prefix(kr);
    assert("]}"@ == seq![']'] + seq!['}']) by {
        lemma_kernel_keys();
    }
    let p = kernel_prefix_text(kr);
    let body = kernel_modules_text(kr);
    let k6 = json_string("modules"@);
    let c = seq![':'];
    assert(seq!['{'] + (p + (k6 + c + (seq!['['] + body + seq![']']))) + seq!['}'] =~= seq!['{'] + p + k6
        + c + seq!['['] + body + (seq![']'] + seq!['}']));
}

/// The JSON value of the report of a check.
pub open spec fn report_value(r: CheckResultView) -> JsonValue {
    JsonValue::Object(
        seq![
            ("severity"@, JsonValue::Str(spec_status(check_severity(r)))),
            ("diagnostics"@, JsonValue::Array(r.diagnostics.map_values(|d: Seq<char>| JsonValue::Str(d)))),
            ("kernels"@, JsonValue::Array(r.kernels.map_values(|k: KernelResultView| kernel_value(k)))),
        ],
    )
}

/// How the keys of the report are written.
proof fn lemma_report_keys()
    ensures
        "{\"severity\":\""@ == seq!['{'] + json_string("severity"@) + seq![':'] + seq!['"'],
        "\",\"diagnostics\":["@ == seq!['"'] + seq![','] + json_string("diagnostics"@) + seq![':'] + seq!['['],
        "],\"kernels\":["@ == seq![']'] + seq![','] + json_string("kernels"@) + seq![':'] + seq!['['],
        "]}"@ == seq![']'] + seq!['}'],
        ","@ == seq![','],
{
    reveal_strlit("severity");
    reveal_strlit("diagnostics");
    reveal_strlit("kernels");
    reveal_strlit("{\"severity\":\"");
    reveal_strlit("\",\"diagnostics\":[");
    reveal_strlit("],\"kernels\":[");
    reveal_strlit("]}");
    reveal_strlit(",");
    lemma_key_text("severity"@);
    lemma_key_text("diagnostics"@);
    lemma_key_text("kernels"@);
}

/// The diagnostics are written as their JSON strings.
proof fn lemma_diagnostics_render(ds: Seq<Seq<char>>)
    ensures
        render_elements(ds.map_values(|d: Seq<char>| JsonValue::Str(d))) == join(
            ds.map_values(|d: Seq<char>| json_string(d)),
            ","@,
        ),
{
    let vs = ds.map_values(|d: Seq<char>| JsonValue::Str(d));
    let rv = vs.map_values(|v: JsonValue| render(v));
    let dj = ds.map_values(|d: Seq<char>| json_string(d));
    lemma_render_elements_join(vs);
    lemma_report_keys();
    assert(rv =~= dj);
}

/// The kernel results are written as their JSON values.
proof fn lemma_kernels_render(ks: Seq<KernelResultView>)
    ensures
        render_elements(ks.map_values(|k: KernelResultView| kernel_value(k))) == join(
            ks.map_values(|k: KernelResultView| kernel_json(k)),
            ","@,
        ),
{
    let vs = ks.map_values(|k: KernelResultView| kernel_value(k));
    let rv = vs.map_values(|v: JsonValue| render(v));
    let kj = ks.map_values(|k: KernelResultView| kernel_json(k));
    lemma_render_elements_join(vs);
    lemma_report_keys();
    assert forall|i: int| 0 <= i < rv.len() implies #[trigger] rv[i] == kj[i] by {
        lemma_kernel_render(ks[i]);
    }
    assert(rv =~= kj);
}

/// The members of the report as written, without braces.
spec fn report_members_text(r: CheckResultView) -> Seq<char> {
    let c = seq![':'];
    let k = seq![','];
    let q = seq!['"'];
    json_string("severity"@) + c + (q + spec_status(check_severity(r)) + q) + k + (json_string(
        "diagnostics"@,
    ) + c + (seq!['['] + join(r.diagnostics.map_values(|d: Seq<char>| json_string(d)), ","@)
        + seq![']'])) + k + (json_string("kernels"@) + c + (seq!['['] + join(
        r.kernels.map_values(|k: KernelResultView| kernel_json(k)),
        ","@,
    ) + seq![']']))
}

/// The JSON value of the report, written member by member.
#[verifier::spinoff_prover]
proof fn lemma_report_value_text(r: CheckResultView)
    ensures
        render(report_value(r)) == seq!['{'] + report_members_text(r) + seq!['}'],
{
    let ms = match report_value(r) {
        JsonValue::Object(ms) => ms,
        _ => Seq::empty(),
    };
    lemma_status_plain(check_severity(r));
    lemma_diagnostics_render(r.diagnostics);
    lemma_kernels_render(r.kernels);
    let ms1 = ms.drop_first();
    let ms2 = ms1.drop_first();
    lemma_render_members_front(ms);
    lemma_render_members_front(ms1);
    lemma_render_members_front(ms2);
    assert(ms1[0] == ms[1] && ms2[0] == ms[2]);
    lemma_add_assoc(member_text(ms[0].0, ms[0].1) + seq![','], member_text(ms[1].0, ms[1].1) + seq![','], member_text(ms[2].0, ms[2].1));
    lemma_add_assoc(member_text(ms[0].0, ms[0].1), seq![','], member_text(ms[1].0, ms[1].1) + seq![','] + member_text(ms[2].0, ms[2].1));
}

/// The written report, regrouped member by member.
proof fn lemma_report_text_shape(
    l1: Seq<char>, st: Seq<char>, l2: Seq<char>, db: Seq<char>, l3: Seq<char>, kb: Seq<char>,
    l4: Seq<char>, k1: Seq<char>, k2: Seq<char>, k3: Seq<char>,
)
    requires
        l1 == seq!['{'] + k1 + seq![':'] + seq!['"'],
        l2 == seq!['"'] + seq![','] + k2 + seq![':'] + seq!['['],
        l3 == seq![']'] + seq![','] + k3 + seq![':'] + seq!['['],
        l4 == seq![']'] + seq!['}'],
    ensures
        l1 + st + l2 + db + l3 + kb + l4 == seq!['{'] + (k1 + seq![':'] + (seq!['"'] + st + seq!['"'])
            + seq![','] + (k2 + seq![':'] + (seq!['['] + db + seq![']'])) + seq![','] + (k3 + seq![':']
            + (seq!['['] + kb + seq![']']))) + seq!['}'],
{
    let c = seq![':'];
    let k = seq![','];
    let q = seq!['"'];
    let x1 = seq!['{'] + (k1 + c + (q + st + q));
    assert(l1 + st + seq!['"'] =~= x1);
    let x2 = x1 + k + (k2 + c + (seq!['['] + db + seq![']']));
    assert(l1 + st + l2 + db + seq![']'] =~= x2);
    let x3 = x2 + k + (k3 + c + (seq!['['] + kb + seq![']']));
    assert(l1 + st + l2 + db + l3 + kb + seq![']'] =~= x3);
    assert(x3 + seq!['}'] =~= seq!['{'] + (k1 + c + (q + st + q) + k + (k2 + c + (seq!['['] + db
        + seq![']'])) + k + (k3 + c + (seq!['['] + kb + seq![']']))) + seq!['}']);
}

/// The written report holds its three members.
#[verifier::spinoff_prover]
proof fn lemma_report_text(r: CheckResultView)
    ensures
        spec_json_output(r) == seq!['{'] + report_members_text(r) + seq!['}'],
{
    lemma_report_keys();
    lemma_report_text_shape(
        "{\"severity\":\""@, spec_status(check_severity(r)), "\",\"diagnostics\":["@,
        join(r.diagnostics.map_values(|d: Seq<char>| json_string(d)), ","@), "],\"kernels\":["@,
        join(r.kernels.map_values(|k: KernelResultView| kernel_json(k)), ","@), "]}"@,
        json_string("severity"@), json_string("diagnostics"@), json_string("kernels"@),
    );
}

/// The JSON report is the text of its JSON value.
proof fn lemma_report_render(r: CheckResultView)
    ensures
        render(report_value(r)) == spec_json_output(r),
{
    lemma_report_value_text(r);
    lemma_report_text(r);
}

/// The JSON report parses as one JSON object: the severity of the check,
/// its diagnostics, and each kernel in order with its fields and its module
/// results.
pub proof fn lemma_json_output_parses(r: CheckResultView)
    ensures
        parse_json(spec_json_output(r)) == Some(report_value(r)),
{
    lemma_report_render(r);
    lemma_parse_render(report_value(r));
}


/// The columns of a module line: after the label, the policy name and the
/// message, `; module=yes` when the module was found and `; module=no` when
/// it was not, then `; initrd=` with `yes`, `no` or `not-checked`, then the
/// reason.
pub proof fn lemma_module_line_columns(m: ModuleResultView)
    ensures
        ({
            let head = "  "@ + spec_label(m.severity) + ": "@ + m.policy.name + ": "@ + m.message;
            let module_col: Seq<char> = if m.module_found {
                "; module=yes"@
            } else {
                "; module=no"@
            };
            let initrd_col: Seq<char> = match m.initrd_found {
                Some(true) => "; initrd=yes"@,
                Some(false) => "; initrd=no"@,
                None => "; initrd=not-checked"@,
            };
            module_line(m) == head + module_col + initrd_col + "; reason="@ + m.policy.reason
                + "\n"@
        }),
{
    reveal_strlit("; module=");
    reveal_strlit("; module=yes");
    reveal_strlit("; module=no");
    reveal_strlit("yes");
    reveal_strlit("no");
    reveal_strlit("not-checked");
    reveal_strlit("; initrd=");
    reveal_strlit("; initrd=yes");
    reveal_strlit("; initrd=no");
    reveal_strlit("; initrd=not-checked");
    let head = "  "@ + spec_label(m.severity) + ": "@ + m.policy.name + ": "@ + m.message;
    let y = yes_no(m.module_found);
    let it = initrd_text(m.initrd_found);
    let tail = "; reason="@ + m.policy.reason + "\n"@;
    assert("; module="@ + y =~= (if m.module_found {
        "; module=yes"@
    } else {
        "; module=no"@
    }));
    assert("; initrd="@ + it =~= (match m.initrd_found {
        Some(true) => "; initrd=yes"@,
        Some(false) => "; initrd=no"@,
        None => "; initrd=not-checked"@,
    }));
    assert(module_line(m) =~= head + ("; module="@ + y) + ("; initrd="@ + it) + "; reason="@
        + m.policy.reason + "\n"@);
}

} // verus!
