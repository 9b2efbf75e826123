use crate::text::chars_of;
use vstd::prelude::*;

verus! {

/// The bytes of an ASCII text.
pub open spec fn ascii_bytes(s: Seq<char>) -> Seq<u8> {
    s.map_values(|c: char| c as u8)
}

/// The bytes of an ASCII text.
pub fn word_bytes(w: &str) -> (r: Vec<u8>)
    ensures
        r@ == ascii_bytes(w@),
{
    let c = chars_of(w);
    let mut r: Vec<u8> = Vec::new();
    for i in 0..c.len()
        invariant
            c@ == w@,
            r@ == ascii_bytes(w@).take(i as int),
    {
        r.push(c[i] as u8);
        assert(ascii_bytes(w@).take(i + 1) == ascii_bytes(w@).take(i as int).push(c[i as int] as u8));
    }
    assert(ascii_bytes(w@).take(c.len() as int) == ascii_bytes(w@));
    r
}

/// The plugin's acknowledgement frame.
pub open spec fn ack_frame() -> Seq<u8> {
    ascii_bytes("ACK\n\n\0"@)
}

/// The plugin's answer to a command it does not know.
pub open spec fn enomethod_frame() -> Seq<u8> {
    ascii_bytes("_ENOMETHOD\n\n\0"@)
}

/// The acknowledgement frame.
pub fn ack() -> (r: Vec<u8>)
    ensures
        r@ == ack_frame(),
{
    word_bytes("ACK\n\n\0")
}

/// The answer to an unknown command.
pub fn enomethod() -> (r: Vec<u8>)
    ensures
        r@ == enomethod_frame(),
{
    word_bytes("_ENOMETHOD\n\n\0")
}

/// What the plugin does with one frame of the libzypp plugin protocol.
pub enum PluginStep {
    /// An empty frame: nothing to answer.
    Skip,
    /// Run the checker first when `run_check`, then write `response`, then
    /// stop reading when `stop`.
    Reply { run_check: bool, response: Vec<u8>, stop: bool },
}

/// The view of a [`PluginStep`]: `None` for `Skip`, else whether the checker
/// runs, the response, and whether the plugin stops.
pub open spec fn step_view(s: PluginStep) -> Option<(bool, Seq<u8>, bool)> {
    match s {
        PluginStep::Skip => None,
        PluginStep::Reply { run_check, response, stop } => Some((run_check, response@, stop)),
    }
}

/// A frame without its terminating NUL byte.
pub open spec fn frame_body(frame: Seq<u8>) -> Seq<u8> {
    if frame.len() > 0 && frame.last() == 0 {
        frame.drop_last()
    } else {
        frame
    }
}

/// The command of a frame: its bytes up to the first newline.
pub open spec fn frame_command(body: Seq<u8>) -> Seq<u8> {
    if exists|i: int| 0 <= i < body.len() && body[i] == 10 {
        body.take(choose|i: int| 0 <= i < body.len() && body[i] == 10 && forall|k: int| 0 <= k < i ==> body[k] != 10)
    } else {
        body
    }
}

/// What the plugin does with a frame as read up to and with its NUL byte:
/// nothing for an empty frame; `ACK` to `PLUGINBEGIN`; the check, then `ACK`
/// to `PACKAGESETCHANGED`; `ACK` and stop to `PLUGINEND` and `_DISCONNECT`;
/// `_ENOMETHOD` to anything else.
pub open spec fn spec_plugin_step(frame: Seq<u8>) -> Option<(bool, Seq<u8>, bool)> {
    let body = frame_body(frame);
    let command = frame_command(body);
    if body.len() == 0 {
        None
    } else if command == ascii_bytes("PLUGINBEGIN"@) {
        Some((false, ack_frame(), false))
    } else if command == ascii_bytes("PACKAGESETCHANGED"@) {
        Some((true, ack_frame(), false))
    } else if command == ascii_bytes("PLUGINEND"@) || command == ascii_bytes("_DISCONNECT"@) {
        Some((false, ack_frame(), true))
    } else {
        Some((false, enomethod_frame(), false))
    }
}

/// The two byte strings are equal.
fn eq_bytes(a: &[u8], b: &[u8]) -> (r: bool)
    ensures
        r == (a@ == b@),
{
    if a.len() != b.len() {
        return false;
    }
    for i in 0..a.len()
        invariant
            a.len() == b.len(),
            forall|k: int| 0 <= k < i ==> a@[k] == b@[k],
    {
        if a[i] != b[i] {
            return false;
        }
    }
    assert(a@ == b@);
    true
}

/// Decides what to do with one frame.
pub fn plugin_step(frame: &[u8]) -> (r: PluginStep)
    ensures
        step_view(r) == spec_plugin_step(frame@),
{
    let mut end = frame.len();
    if end > 0 && frame[end - 1] == 0 {
        end = end - 1;
    }
    let ghost body = frame_body(frame@);
    assert(body == frame@.take(end as int));
    if end == 0 {
        return PluginStep::Skip;
    }
    let mut cut: usize = 0;
    while cut < end && frame[cut] != 10
        invariant
            cut <= end <= frame.len(),
            body == frame@.take(end as int),
            forall|k: int| 0 <= k < cut ==> body[k] != 10,
        decreases end - cut,
    {
        cut = cut + 1;
    }
    let mut command: Vec<u8> = Vec::new();
    for i in 0..cut
        invariant
            cut <= end <= frame.len(),
            command@ == frame@.take(i as int),
    {
        command.push(frame[i]);
        assert(frame@.take(i + 1) == frame@.take(i as int).push(frame@[i as int]));
    }
    proof {
        if cut < end {
            assert(body[cut as int] == 10);
            let j = choose|i: int| 0 <= i < body.len() && body[i] == 10 && forall|k: int| 0 <= k < i ==> body[k] != 10;
            assert(j == cut) by {
                if j < cut {
                    assert(body[j] != 10);
                }
                if j > cut {
                    assert(body[cut as int] != 10);
                }
            }
            assert(frame_command(body) == body.take(cut as int));
        } else {
            assert(!exists|i: int| 0 <= i < body.len() && body[i] == 10);
            assert(body.take(cut as int) == body);
        }
        assert(command@ == frame_command(body));
    }
    let c = command.as_slice();
    let begin = word_bytes("PLUGINBEGIN");
    let changed = word_bytes("PACKAGESETCHANGED");
    let plugin_end = word_bytes("PLUGINEND");
    let disconnect = word_bytes("_DISCONNECT");
    if eq_bytes(c, begin.as_slice()) {
        PluginStep::Reply { run_check: false, response: ack(), stop: false }
    } else if eq_bytes(c, changed.as_slice()) {
        PluginStep::Reply { run_check: true, response: ack(), stop: false }
    } else if eq_bytes(c, plugin_end.as_slice()) || eq_bytes(c, disconnect.as_slice()) {
        PluginStep::Reply { run_check: false, response: ack(), stop: true }
    } else {
        PluginStep::Reply { run_check: false, response: enomethod(), stop: false }
    }
}


/// Every frame with content gets exactly one answer, `ACK` or
/// `_ENOMETHOD`; the check runs only for `PACKAGESETCHANGED` and is always
/// acknowledged, whatever it finds, so a package transaction is never
/// blocked; the plugin stops only after acknowledging `PLUGINEND` or
/// `_DISCONNECT`.
pub proof fn lemma_plugin_replies(frame: Seq<u8>)
    ensures
        frame_body(frame).len() > 0 <==> spec_plugin_step(frame) is Some,
        spec_plugin_step(frame) matches Some((run, response, stop)) ==> {
            &&& response == ack_frame() || response == enomethod_frame()
            &&& run ==> response == ack_frame() && !stop
            &&& stop ==> response == ack_frame() && !run
            &&& run <==> frame_command(frame_body(frame)) == ascii_bytes("PACKAGESETCHANGED"@)
        },
{
    reveal_strlit("PACKAGESETCHANGED");
    reveal_strlit("PLUGINBEGIN");
    reveal_strlit("PLUGINEND");
    reveal_strlit("_DISCONNECT");
    reveal_strlit("ACK\n\n\0");
    reveal_strlit("_ENOMETHOD\n\n\0");
    assert(ascii_bytes("PACKAGESETCHANGED"@).len() == 17);
    assert(ascii_bytes("PLUGINBEGIN"@).len() == 11);
    assert(ack_frame().len() == 6);
    assert(enomethod_frame().len() == 13);
}

} // verus!
