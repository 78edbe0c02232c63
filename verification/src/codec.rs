use crate::models::{LightState, PowerAction};
use vstd::prelude::*;

verus! {

// ---------------------------------------------------------------------------
// Payload decoding: a bus payload reports a state iff it is valid UTF-8 and,
// trimmed of surrounding Unicode whitespace, its text reads exactly "ON" or
// "OFF". Anything else is discarded by the caller. Whitespace is handled as
// the UTF-8 encodings of the Unicode White_Space code points, so the whole
// rule is stated over the payload bytes themselves.
// ---------------------------------------------------------------------------

/// A UTF-8 continuation byte.
pub open spec fn is_cont(b: u8) -> bool {
    0x80 <= b && b <= 0xBF
}

/// `a b c` encode one code point as three bytes (overlong forms and
/// surrogates excluded, as UTF-8 demands).
pub open spec fn is_utf8_triple(a: u8, b: u8, c: u8) -> bool {
    &&& is_cont(c)
    &&& {
        ||| (a == 0xE0 && 0xA0 <= b && b <= 0xBF)
        ||| (0xE1 <= a && a <= 0xEC && is_cont(b))
        ||| (a == 0xED && 0x80 <= b && b <= 0x9F)
        ||| (0xEE <= a && a <= 0xEF && is_cont(b))
    }
}

/// `a b c d` encode one code point as four bytes (at most U+10FFFF).
pub open spec fn is_utf8_quad(a: u8, b: u8, c: u8, d: u8) -> bool {
    &&& is_cont(c)
    &&& is_cont(d)
    &&& {
        ||| (a == 0xF0 && 0x90 <= b && b <= 0xBF)
        ||| (0xF1 <= a && a <= 0xF3 && is_cont(b))
        ||| (a == 0xF4 && 0x80 <= b && b <= 0x8F)
    }
}

/// The length of the one code point encoded at the front of `s`, or zero if
/// the front of `s` is no valid encoding.
pub open spec fn utf8_char_len(s: Seq<u8>) -> nat {
    if s.len() >= 1 && s[0] <= 0x7F {
        1
    } else if s.len() >= 2 && 0xC2 <= s[0] && s[0] <= 0xDF && is_cont(s[1]) {
        2
    } else if s.len() >= 3 && is_utf8_triple(s[0], s[1], s[2]) {
        3
    } else if s.len() >= 4 && is_utf8_quad(s[0], s[1], s[2], s[3]) {
        4
    } else {
        0
    }
}

/// `s` is valid UTF-8.
pub open spec fn is_utf8(s: Seq<u8>) -> bool
    decreases s.len(),
{
    if s.len() == 0 {
        true
    } else if utf8_char_len(s) == 0 {
        false
    } else {
        is_utf8(s.skip(utf8_char_len(s) as int))
    }
}

/// The Unicode White_Space code points below U+0080, each one byte: tab,
/// line feed, vertical tab, form feed, carriage return, space.
pub open spec fn is_ws1(a: u8) -> bool {
    a == 9 || a == 10 || a == 11 || a == 12 || a == 13 || a == 32
}

/// The Unicode White_Space code points with two-byte encodings: U+0085 and
/// U+00A0.
pub open spec fn is_ws2(a: u8, b: u8) -> bool {
    a == 0xC2 && (b == 0x85 || b == 0xA0)
}

/// The Unicode White_Space code points with three-byte encodings: U+1680,
/// U+2000 through U+200A, U+2028, U+2029, U+202F, U+205F, U+3000.
pub open spec fn is_ws3(a: u8, b: u8, c: u8) -> bool {
    ||| (a == 0xE1 && b == 0x9A && c == 0x80)
    ||| (a == 0xE2 && b == 0x80 && ((0x80 <= c && c <= 0x8A) || c == 0xA8 || c == 0xA9 || c == 0xAF))
    ||| (a == 0xE2 && b == 0x81 && c == 0x9F)
    ||| (a == 0xE3 && b == 0x80 && c == 0x80)
}

/// The length of the one whitespace encoding at the front of `s`, or zero.
/// (No whitespace encoding is a prefix of another: the three groups start
/// with disjoint lead bytes.)
pub open spec fn ws_prefix_len(s: Seq<u8>) -> nat {
    if s.len() >= 3 && is_ws3(s[0], s[1], s[2]) {
        3
    } else if s.len() >= 2 && is_ws2(s[0], s[1]) {
        2
    } else if s.len() >= 1 && is_ws1(s[0]) {
        1
    } else {
        0
    }
}

/// The length of the one whitespace encoding at the back of `s`, or zero.
/// (In valid UTF-8 this is unambiguous: continuation bytes never match a
/// one-byte encoding, and no two listed encodings share a suffix.)
pub open spec fn ws_suffix_len(s: Seq<u8>) -> nat {
    if s.len() >= 3 && is_ws3(s[s.len() - 3], s[s.len() - 2], s[s.len() - 1]) {
        3
    } else if s.len() >= 2 && is_ws2(s[s.len() - 2], s[s.len() - 1]) {
        2
    } else if s.len() >= 1 && is_ws1(s[s.len() - 1]) {
        1
    } else {
        0
    }
}

/// `s` without its leading whitespace.
pub open spec fn drop_leading_ws(s: Seq<u8>) -> Seq<u8>
    decreases s.len(),
{
    if ws_prefix_len(s) == 0 {
        s
    } else {
        drop_leading_ws(s.skip(ws_prefix_len(s) as int))
    }
}

/// `s` without its trailing whitespace.
pub open spec fn drop_trailing_ws(s: Seq<u8>) -> Seq<u8>
    decreases s.len(),
{
    if ws_suffix_len(s) == 0 {
        s
    } else {
        drop_trailing_ws(s.take(s.len() - ws_suffix_len(s)))
    }
}

/// `s` without surrounding whitespace.
pub open spec fn trim_ws(s: Seq<u8>) -> Seq<u8> {
    drop_trailing_ws(drop_leading_ws(s))
}

/// The bytes of the payload `"ON"`.
pub open spec fn on_bytes() -> Seq<u8> {
    seq![('O' as u8), ('N' as u8)]
}

/// The bytes of the payload `"OFF"`.
pub open spec fn off_bytes() -> Seq<u8> {
    seq![('O' as u8), ('F' as u8), ('F' as u8)]
}

/// The state a payload reports, if any: the payload is valid UTF-8 and its
/// whitespace trim reads exactly "ON" or "OFF".
pub open spec fn spec_payload_state(s: Seq<u8>) -> Option<LightState> {
    if is_utf8(s) && trim_ws(s) == on_bytes() {
        Some(LightState::On)
    } else if is_utf8(s) && trim_ws(s) == off_bytes() {
        Some(LightState::Off)
    } else {
        None
    }
}

/// Whether `b` is a UTF-8 continuation byte.
fn cont_byte(b: u8) -> (r: bool)
    ensures
        r == is_cont(b),
{
    0x80 <= b && b <= 0xBF
}

/// Whether `a b c` encode one code point.
fn utf8_triple_bytes(a: u8, b: u8, c: u8) -> (r: bool)
    ensures
        r == is_utf8_triple(a, b, c),
{
    cont_byte(c) && ((a == 0xE0 && 0xA0 <= b && b <= 0xBF) || (0xE1 <= a && a <= 0xEC
        && cont_byte(b)) || (a == 0xED && 0x80 <= b && b <= 0x9F) || (0xEE <= a && a <= 0xEF
        && cont_byte(b)))
}

/// Whether `a b c d` encode one code point.
fn utf8_quad_bytes(a: u8, b: u8, c: u8, d: u8) -> (r: bool)
    ensures
        r == is_utf8_quad(a, b, c, d),
{
    cont_byte(c) && cont_byte(d) && ((a == 0xF0 && 0x90 <= b && b <= 0xBF) || (0xF1 <= a
        && a <= 0xF3 && cont_byte(b)) || (a == 0xF4 && 0x80 <= b && b <= 0x8F))
}

/// The length of the code point encoded at position `i`, or zero.
fn char_len_at(value: &[u8], i: usize) -> (l: usize)
    requires
        i < value@.len(),
    ensures
        l as nat == utf8_char_len(value@.skip(i as int)),
{
    let n = value.len();
    let b0 = value[i];
    if b0 <= 0x7F {
        return 1;
    }
    if i + 1 < n {
        let b1 = value[i + 1];
        if 0xC2 <= b0 && b0 <= 0xDF && cont_byte(b1) {
            return 2;
        }
        if i + 2 < n {
            let b2 = value[i + 2];
            if utf8_triple_bytes(b0, b1, b2) {
                return 3;
            }
            if i + 3 < n {
                let b3 = value[i + 3];
                if utf8_quad_bytes(b0, b1, b2, b3) {
                    return 4;
                }
            }
        }
    }
    0
}

/// Whether `value` is valid UTF-8, decided byte by byte.
fn is_utf8_bytes(value: &[u8]) -> (r: bool)
    ensures
        r == is_utf8(value@),
{
    let n = value.len();
    let mut i: usize = 0;
    proof {
        assert(value@.skip(0) =~= value@);
    }
    while i < n
        invariant
            i <= n,
            n == value@.len(),
            is_utf8(value@) == is_utf8(value@.skip(i as int)),
        decreases n - i,
    {
        let l = char_len_at(value, i);
        if l == 0 {
            proof {
                assert(!is_utf8(value@.skip(i as int)));
            }
            return false;
        }
        proof {
            assert(l as nat <= value@.skip(i as int).len());
            assert(value@.skip(i as int).skip(l as int) =~= value@.skip(i + l as int));
        }
        i += l;
    }
    proof {
        assert(value@.skip(n as int).len() == 0);
    }
    true
}

/// Whether `a` is a one-byte whitespace encoding.
fn ws1_byte(a: u8) -> (r: bool)
    ensures
        r == is_ws1(a),
{
    a == 9 || a == 10 || a == 11 || a == 12 || a == 13 || a == 32
}

/// Whether `a b` is a two-byte whitespace encoding.
fn ws2_bytes(a: u8, b: u8) -> (r: bool)
    ensures
        r == is_ws2(a, b),
{
    a == 0xC2 && (b == 0x85 || b == 0xA0)
}

/// Whether `a b c` is a three-byte whitespace encoding.
fn ws3_bytes(a: u8, b: u8, c: u8) -> (r: bool)
    ensures
        r == is_ws3(a, b, c),
{
    (a == 0xE1 && b == 0x9A && c == 0x80) || (a == 0xE2 && b == 0x80 && ((0x80 <= c && c <= 0x8A)
        || c == 0xA8 || c == 0xA9 || c == 0xAF)) || (a == 0xE2 && b == 0x81 && c == 0x9F) || (a
        == 0xE3 && b == 0x80 && c == 0x80)
}

/// The length of the whitespace encoding starting at `start`, or zero.
fn ws_prefix_len_at(value: &[u8], start: usize) -> (l: usize)
    requires
        start <= value@.len(),
    ensures
        l as nat == ws_prefix_len(value@.skip(start as int)),
{
    let n = value.len();
    let rem: usize = n - start;
    if rem >= 3 && ws3_bytes(value[start], value[start + 1], value[start + 2]) {
        3
    } else if rem >= 2 && ws2_bytes(value[start], value[start + 1]) {
        2
    } else if rem >= 1 && ws1_byte(value[start]) {
        1
    } else {
        0
    }
}

/// The length of the whitespace encoding ending at `end`, or zero.
fn ws_suffix_len_at(value: &[u8], start: usize, end: usize) -> (l: usize)
    requires
        start <= end,
        end <= value@.len(),
    ensures
        l as nat == ws_suffix_len(value@.subrange(start as int, end as int)),
{
    let rem: usize = end - start;
    if rem >= 3 && ws3_bytes(value[end - 3], value[end - 2], value[end - 1]) {
        3
    } else if rem >= 2 && ws2_bytes(value[end - 2], value[end - 1]) {
        2
    } else if rem >= 1 && ws1_byte(value[end - 1]) {
        1
    } else {
        0
    }
}

impl LightState {
    /// Decode a bus payload: valid UTF-8 that, trimmed of surrounding
    /// Unicode whitespace, reads `"ON"` or `"OFF"` reports a state; every
    /// other payload is rejected.
    pub fn try_from(value: &[u8]) -> (r: Result<LightState, ()>)
        ensures
            r == match spec_payload_state(value@) {
                Some(st) => Ok::<LightState, ()>(st),
                None => Err::<LightState, ()>(()),
            },
    {
        if !is_utf8_bytes(value) {
            return Err(());
        }
        let n = value.len();
        let mut start: usize = 0;
        proof {
            assert(value@.skip(0) =~= value@);
        }
        let mut lead = ws_prefix_len_at(value, start);
        while lead != 0
            invariant
                start <= n,
                n == value@.len(),
                lead as nat == ws_prefix_len(value@.skip(start as int)),
                drop_leading_ws(value@) == drop_leading_ws(value@.skip(start as int)),
            decreases n - start,
        {
            proof {
                assert(lead as nat <= value@.skip(start as int).len());
                assert(value@.skip(start as int).skip(lead as int)
                    =~= value@.skip(start + lead as int));
            }
            start += lead;
            lead = ws_prefix_len_at(value, start);
        }
        let mut end: usize = n;
        let mut trail = ws_suffix_len_at(value, start, end);
        while trail != 0
            invariant
                start <= end <= n,
                n == value@.len(),
                trail as nat == ws_suffix_len(value@.subrange(start as int, end as int)),
                drop_trailing_ws(value@.subrange(start as int, n as int))
                    == drop_trailing_ws(value@.subrange(start as int, end as int)),
            decreases end,
        {
            proof {
                assert(trail as nat <= value@.subrange(start as int, end as int).len());
                assert(value@.subrange(start as int, end as int).take(
                    end - start - trail as int,
                ) =~= value@.subrange(start as int, end - trail as int));
            }
            end -= trail;
            trail = ws_suffix_len_at(value, start, end);
        }
        proof {
            assert(value@.skip(start as int) =~= value@.subrange(start as int, n as int));
            assert(trim_ws(value@) == value@.subrange(start as int, end as int));
        }
        let ghost trimmed = value@.subrange(start as int, end as int);
        if end - start == 2 && value[start] == ('O' as u8) && value[start + 1] == ('N' as u8) {
            proof {
                assert(trimmed =~= on_bytes());
            }
            Ok(LightState::On)
        } else if end - start == 3 && value[start] == ('O' as u8) && value[start + 1] == ('F' as u8)
            && value[start + 2] == ('F' as u8) {
            proof {
                assert(trimmed =~= off_bytes());
            }
            Ok(LightState::Off)
        } else {
            proof {
                assert(trimmed != on_bytes() && trimmed != off_bytes()) by {
                    if trimmed == on_bytes() || trimmed == off_bytes() {
                        assert(trimmed[0] == ('O' as u8));
                    }
                }
            }
            Err(())
        }
    }
}


// ---------------------------------------------------------------------------
// Command encoding: a requested action becomes the payload "ON" or "OFF",
// published to the device's command topic with at-least-once delivery, not
// retained.
// ---------------------------------------------------------------------------

/// Delivery quality requested of the bus for one publish.
#[derive(Clone, Copy, Debug, PartialEq, Eq, Structural)]
pub enum Qos {
    AtMostOnce,
    AtLeastOnce,
    ExactlyOnce,
}

/// One outbound publish for the caller to hand to the bus: the actor decides
/// it, the transport layer performs it.
#[derive(Clone, Debug)]
pub struct PublishRequest {
    pub topic: String,
    pub payload: String,
    pub qos: Qos,
    pub retained: bool,
}

/// The wire payload of an action.
pub open spec fn spec_action_payload(a: PowerAction) -> Seq<char> {
    match a {
        PowerAction::On => "ON"@,
        PowerAction::Off => "OFF"@,
    }
}

/// The command topic of a device.
pub open spec fn spec_command_topic(id: Seq<char>) -> Seq<char> {
    "cmd/"@ + id + "/power"@
}

/// The publish that carries `action` to device `id`.
pub fn encode_command(id: &String, action: PowerAction) -> (r: PublishRequest)
    ensures
        r.topic@ == spec_command_topic(id@),
        r.payload@ == spec_action_payload(action),
        r.qos == Qos::AtLeastOnce,
        !r.retained,
{
    let mut topic = String::from_str("cmd/");
    topic.append(id.as_str());
    topic.append("/power");
    let payload = match action {
        PowerAction::On => String::from_str("ON"),
        PowerAction::Off => String::from_str("OFF"),
    };
    PublishRequest { topic, payload, qos: Qos::AtLeastOnce, retained: false }
}

// ---------------------------------------------------------------------------
// Topic parsing: a status topic has exactly the three-segment shape
// stat/<device-id>/power. Any other shape is discarded by the caller.
// ---------------------------------------------------------------------------

/// `t` is the status topic of device `id`: the prefix "stat/", then the
/// identifier (any characters but '/'), then the suffix "/power".
pub open spec fn spec_status_topic(t: Seq<char>, id: Seq<char>) -> bool {
    &&& t.len() == id.len() + 11
    &&& t.subrange(0, 5) == "stat/"@
    &&& t.subrange(5, 5 + id.len() as int) == id
    &&& t.subrange(5 + id.len() as int, t.len() as int) == "/power"@
    &&& forall|k: int| 0 <= k < id.len() ==> id[k] != '/'
}

/// The one slash of the prefix "stat/" is its last character.
proof fn lemma_stat_prefix()
    ensures
        "stat/"@.len() == 5,
        "stat/"@[4] == '/',
        forall|k: int| 0 <= k < 4 ==> "stat/"@[k] != '/',
{
    reveal_strlit("stat/");
    assert forall|k: int| 0 <= k < 4 implies "stat/"@[k] != '/' by {
        if k == 0 {
            assert("stat/"@[0] != '/');
        } else if k == 1 {
            assert("stat/"@[1] != '/');
        } else if k == 2 {
            assert("stat/"@[2] != '/');
        } else {
            assert("stat/"@[3] != '/');
        }
    }
}

/// The one slash of the suffix "/power" is its first character.
proof fn lemma_power_suffix()
    ensures
        "/power"@.len() == 6,
        "/power"@[0] == '/',
        forall|k: int| 1 <= k < 6 ==> "/power"@[k] != '/',
{
    reveal_strlit("/power");
    assert forall|k: int| 1 <= k < 6 implies "/power"@[k] != '/' by {
        if k == 1 {
            assert("/power"@[1] != '/');
        } else if k == 2 {
            assert("/power"@[2] != '/');
        } else if k == 3 {
            assert("/power"@[3] != '/');
        } else if k == 4 {
            assert("/power"@[4] != '/');
        } else {
            assert("/power"@[5] != '/');
        }
    }
}

/// A status topic has slashes exactly where the shape puts them: after the
/// prefix and before the suffix.
proof fn lemma_status_topic_slashes(t: Seq<char>, id: Seq<char>)
    requires
        spec_status_topic(t, id),
    ensures
        t[4] == '/',
        t[5 + id.len() as int] == '/',
        forall|k: int| 0 <= k < t.len() && t[k] == '/' ==> k == 4 || k == 5 + id.len(),
{
    lemma_stat_prefix();
    lemma_power_suffix();
    assert(t[4] == t.subrange(0, 5)[4]);
    assert(t[5 + id.len() as int] == t.subrange(5 + id.len() as int, t.len() as int)[0]);
    assert forall|k: int| 0 <= k < t.len() && t[k] == '/'
        implies k == 4 || k == 5 + id.len() by {
        if k < 5 {
            assert(t[k] == t.subrange(0, 5)[k]);
        } else if k < 5 + id.len() {
            assert(t[k] == t.subrange(5, 5 + id.len() as int)[k - 5]);
        } else {
            assert(t[k] == t.subrange(5 + id.len() as int, t.len() as int)[k - 5 - id.len()]);
        }
    }
}

/// Whether two string slices read the same.
fn str_eq(a: &str, b: &str) -> (r: bool)
    ensures
        r == (a@ == b@),
{
    let a2 = a.to_owned();
    let b2 = b.to_owned();
    a2 == b2
}

/// Parse a bus topic as a status topic: return the device identifier iff the
/// topic has exactly the shape stat/<device-id>/power.
pub fn parse_status_topic(topic: &str) -> (r: Option<String>)
    ensures
        (r matches Some(id) ==> spec_status_topic(topic@, id@)),
        r is None ==> forall|id: Seq<char>| !spec_status_topic(topic@, id),
{
    let n = topic.unicode_len();
    let mut i: usize = 0;
    let mut count: usize = 0;
    let mut first: usize = 0;
    let mut second: usize = 0;
    let mut third: usize = 0;
    while i < n
        invariant
            i <= n,
            n == topic@.len(),
            count <= i,
            count == 0 ==> forall|k: int| 0 <= k < i ==> topic@[k] != '/',
            count == 1 ==> first < i && topic@[first as int] == '/'
                && forall|k: int| 0 <= k < i && k != first ==> topic@[k] != '/',
            count >= 2 ==> first < second < i
                && topic@[first as int] == '/' && topic@[second as int] == '/',
            count == 2 ==> forall|k: int| 0 <= k < i && k != first && k != second
                ==> topic@[k] != '/',
            count >= 3 ==> second < third < i && topic@[third as int] == '/',
        decreases n - i,
    {
        if topic.get_char(i) == '/' {
            if count == 0 {
                first = i;
            } else if count == 1 {
                second = i;
            } else if count == 2 {
                third = i;
            }
            count += 1;
        }
        i += 1;
    }
    if count != 2 {
        proof {
            assert forall|id: Seq<char>| !spec_status_topic(topic@, id) by {
                if spec_status_topic(topic@, id) {
                    lemma_status_topic_slashes(topic@, id);
                    assert(topic@[4] == '/' && topic@[5 + id.len() as int] == '/');
                    assert(4 < 5 + id.len() < n);
                }
            }
        }
        return None;
    }
    let seg0 = topic.substring_char(0, first + 1);
    let seg2 = topic.substring_char(second, n);
    if str_eq(seg0, "stat/") && str_eq(seg2, "/power") {
        let idseg = topic.substring_char(first + 1, second);
        proof {
            lemma_stat_prefix();
            lemma_power_suffix();
            assert(first + 1 == 5);
            assert(n - second == 6);
            let id = idseg@;
            assert(id =~= topic@.subrange(5, 5 + id.len() as int));
            assert(topic@.subrange(0, 5) == seg0@);
            assert(topic@.subrange(5 + id.len() as int, n as int) == seg2@);
        }
        Some(idseg.to_owned())
    } else {
        proof {
            assert forall|id: Seq<char>| !spec_status_topic(topic@, id) by {
                if spec_status_topic(topic@, id) {
                    lemma_status_topic_slashes(topic@, id);
                    assert(topic@[4] == '/' && topic@[5 + id.len() as int] == '/');
                    assert(4 < 5 + id.len() < n);
                    assert(first == 4 && second == 5 + id.len());
                    assert(seg0@ =~= topic@.subrange(0, 5));
                    assert(topic@.subrange(0, 5) == "stat/"@);
                    assert(seg2@ =~= topic@.subrange(5 + id.len() as int, n as int));
                    assert(topic@.subrange(5 + id.len() as int, n as int) == "/power"@);
                }
            }
        }
        None
    }
}

/// Decode one inbound bus event: the reported (device, state) iff the topic
/// is a status topic and the payload reports a state; everything else is
/// dropped.
pub fn decode_status(topic: &str, payload: &[u8]) -> (r: Option<(String, LightState)>)
    ensures
        (r matches Some(up) ==> spec_status_topic(topic@, up.0@)
            && spec_payload_state(payload@) == Some(up.1)),
        r is None ==> (forall|id: Seq<char>| !spec_status_topic(topic@, id))
            || spec_payload_state(payload@) is None,
{
    match parse_status_topic(topic) {
        Some(id) => match LightState::try_from(payload) {
            Ok(st) => Some((id, st)),
            Err(_) => None,
        },
        None => None,
    }
}

} // verus!
