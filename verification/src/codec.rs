//! Protocol codec: inbound text frames to typed events.
//!
//! An inbound frame is `<tag>:<payload>` where the tag names one of five
//! event kinds — room snapshot, member joined, member quit, member
//! renamed, chat message — and the payload is a record in a small, fully
//! specified object syntax (the common interchange subset: objects with
//! quoted keys, string values or nested objects, one unsigned integer
//! field for a message id, escapes `\" \\ \/ \n \t \r \b \f`, and
//! whitespace between tokens).  A frame with an unknown tag is ignored; a
//! recognized tag with a malformed payload is a per-frame decode error —
//! the frame is dropped and the connection lives on.
//!
//! Because membership records must carry a visible name, the grammar
//! demands a non-empty display name wherever one is bound: in a join or
//! rename record and in the values of a snapshot.
//!
//! The whole grammar is stated by the `spec` parsing functions here;
//! every executable parser returns exactly what the grammar says, for
//! every input.

use vstd::prelude::*;
use crate::registry::{MemberEntry, RoomEntry};
use crate::registry::{members_map, rooms_map, unique_members, unique_rooms, members_named};
use crate::store::{MessageContent, MessageView};

verus! {

/// A recognized tag whose payload does not match the grammar; the frame
/// carrying it is dropped.
#[derive(Debug)]
pub struct DecodeError;

/// Whitespace accepted between payload tokens.
pub open spec fn is_ws(c: char) -> bool {
    c == ' ' || c == '\n' || c == '\t' || c == '\r'
}

/// The first position at or after `i` that does not hold whitespace.
pub open spec fn skip_ws(s: Seq<char>, i: int) -> int
    decreases s.len() - i,
{
    if 0 <= i < s.len() && is_ws(s[i]) {
        skip_ws(s, i + 1)
    } else {
        i
    }
}

pub proof fn lemma_skip_ws_bounds(s: Seq<char>, i: int)
    requires
        0 <= i <= s.len(),
    ensures
        i <= skip_ws(s, i) <= s.len(),
    decreases s.len() - i,
{
    if i < s.len() && is_ws(s[i]) {
        lemma_skip_ws_bounds(s, i + 1);
    }
}

/// What a backslash escape stands for; `None` for an unsupported escape.
pub open spec fn esc(c: char) -> Option<char> {
    if c == '"' {
        Some('"')
    } else if c == '\\' {
        Some('\\')
    } else if c == '/' {
        Some('/')
    } else if c == 'n' {
        Some('\n')
    } else if c == 't' {
        Some('\t')
    } else if c == 'r' {
        Some('\r')
    } else if c == 'b' {
        Some('\u{0008}')
    } else if c == 'f' {
        Some('\u{000C}')
    } else {
        None
    }
}

/// Scans the inside of a quoted string starting at `i` (the opening
/// quote already consumed), accumulating the unescaped characters; yields
/// the string's value and the position after the closing quote.
pub open spec fn scan_string(s: Seq<char>, i: int, acc: Seq<char>) -> Option<(Seq<char>, int)>
    decreases s.len() - i,
{
    if i < 0 || i >= s.len() {
        None
    } else if s[i] == '"' {
        Some((acc, i + 1))
    } else if s[i] == '\\' {
        if i + 1 < s.len() {
            match esc(s[i + 1]) {
                Some(c) => scan_string(s, i + 2, acc.push(c)),
                None => None,
            }
        } else {
            None
        }
    } else if (s[i] as u32) < 32 {
        None
    } else {
        scan_string(s, i + 1, acc.push(s[i]))
    }
}

/// Parses a quoted string at `i`.
pub open spec fn parse_string(s: Seq<char>, i: int) -> Option<(Seq<char>, int)> {
    if 0 <= i < s.len() && s[i] == '"' {
        scan_string(s, i + 1, Seq::empty())
    } else {
        None
    }
}

pub proof fn lemma_scan_string_advances(s: Seq<char>, i: int, acc: Seq<char>)
    ensures
        match scan_string(s, i, acc) {
            Some(r) => i < r.1 <= s.len(),
            None => true,
        },
    decreases s.len() - i,
{
    if 0 <= i < s.len() {
        if s[i] == '"' {
        } else if s[i] == '\\' {
            if i + 1 < s.len() {
                match esc(s[i + 1]) {
                    Some(c) => lemma_scan_string_advances(s, i + 2, acc.push(c)),
                    None => {},
                }
            }
        } else {
            lemma_scan_string_advances(s, i + 1, acc.push(s[i]));
        }
    }
}

pub proof fn lemma_parse_string_advances(s: Seq<char>, i: int)
    ensures
        match parse_string(s, i) {
            Some(r) => i < r.1 <= s.len(),
            None => true,
        },
{
    if 0 <= i < s.len() && s[i] == '"' {
        lemma_scan_string_advances(s, i + 1, Seq::empty());
    }
}

/// Whether a character is a decimal digit.
pub open spec fn is_digit(c: char) -> bool {
    48 <= (c as u32) <= 57
}

/// The numeric value of a digit.
pub open spec fn digit_val(c: char) -> int {
    (c as u32) - 48
}

/// Scans a run of digits, folding them onto `acc`; a value exceeding
/// `u128::MAX` does not fit the id field and fails the scan.
pub open spec fn scan_number(s: Seq<char>, i: int, acc: nat) -> Option<(nat, int)>
    decreases s.len() - i,
{
    if i < 0 || i >= s.len() || !is_digit(s[i]) {
        Some((acc, i))
    } else {
        let acc2 = acc * 10 + digit_val(s[i]);
        if acc2 > u128::MAX {
            None
        } else {
            scan_number(s, i + 1, acc2 as nat)
        }
    }
}

/// Parses an unsigned decimal integer at `i`: at least one digit, no
/// leading zero except for "0" itself, value at most `u128::MAX`.
pub open spec fn parse_number(s: Seq<char>, i: int) -> Option<(nat, int)> {
    if !(0 <= i < s.len() && is_digit(s[i])) {
        None
    } else if s[i] == '0' {
        if i + 1 < s.len() && is_digit(s[i + 1]) {
            None
        } else {
            Some((0, i + 1))
        }
    } else {
        scan_number(s, i, 0)
    }
}

pub proof fn lemma_scan_number_advances(s: Seq<char>, i: int, acc: nat)
    requires
        0 <= i <= s.len(),
    ensures
        match scan_number(s, i, acc) {
            Some(r) => i <= r.1 <= s.len(),
            None => true,
        },
    decreases s.len() - i,
{
    if 0 <= i < s.len() && is_digit(s[i]) {
        let acc2 = acc * 10 + digit_val(s[i]);
        if acc2 <= u128::MAX {
            lemma_scan_number_advances(s, i + 1, acc2 as nat);
        }
    }
}

pub proof fn lemma_parse_number_advances(s: Seq<char>, i: int)
    requires
        0 <= i <= s.len(),
    ensures
        match parse_number(s, i) {
            Some(r) => i < r.1 <= s.len(),
            None => true,
        },
{
    if 0 <= i < s.len() && is_digit(s[i]) && s[i] != '0' {
        lemma_scan_number_advances(s, i, 0);
        if scan_number(s, i, 0) is Some {
            let r = scan_number(s, i, 0)->0;
            assert(r.1 > i) by {
                let acc2 = 0 * 10 + digit_val(s[i]);
                if acc2 <= u128::MAX {
                    lemma_scan_number_advances(s, i + 1, acc2 as nat);
                }
            }
        }
    }
}

/// Scans the members of a `"session id": "display name"` object, the
/// opening brace already consumed: entries separated by commas, keys
/// unique, values non-empty, ending at the closing brace.
pub open spec fn scan_members(s: Seq<char>, i: int, acc: Map<Seq<char>, Seq<char>>) -> Option<
    (Map<Seq<char>, Seq<char>>, int),
>
    decreases s.len() - i,
    when 0 <= i <= s.len()
    via scan_members_decreases
{
    let k0 = skip_ws(s, i);
    match parse_string(s, k0) {
        None => None,
        Some((key, i2)) => {
            let i3 = skip_ws(s, i2);
            if !(i3 < s.len() && s[i3] == ':') {
                None
            } else {
                let i4 = skip_ws(s, i3 + 1);
                match parse_string(s, i4) {
                    None => None,
                    Some((val, i5)) => {
                        if val.len() == 0 || acc.contains_key(key) {
                            None
                        } else {
                            let acc2 = acc.insert(key, val);
                            let i6 = skip_ws(s, i5);
                            if i6 < s.len() && s[i6] == ',' {
                                scan_members(s, i6 + 1, acc2)
                            } else if i6 < s.len() && s[i6] == '}' {
                                Some((acc2, i6 + 1))
                            } else {
                                None
                            }
                        }
                    },
                }
            }
        },
    }
}

#[via_fn]
proof fn scan_members_decreases(s: Seq<char>, i: int, acc: Map<Seq<char>, Seq<char>>) {
    lemma_skip_ws_bounds(s, i);
    let k0 = skip_ws(s, i);
    lemma_parse_string_advances(s, k0);
    match parse_string(s, k0) {
        None => {},
        Some((key, i2)) => {
            lemma_skip_ws_bounds(s, i2);
            let i3 = skip_ws(s, i2);
            if i3 < s.len() && s[i3] == ':' {
                lemma_skip_ws_bounds(s, i3 + 1);
                let i4 = skip_ws(s, i3 + 1);
                lemma_parse_string_advances(s, i4);
                match parse_string(s, i4) {
                    None => {},
                    Some((val, i5)) => {
                        lemma_skip_ws_bounds(s, i5);
                    },
                }
            }
        },
    }
}

/// Parses a whole member object at `i`.
pub open spec fn parse_member_obj(s: Seq<char>, i: int) -> Option<(Map<Seq<char>, Seq<char>>, int)>
{
    let i0 = skip_ws(s, i);
    if !(0 <= i && i0 < s.len() && s[i0] == '{') {
        None
    } else {
        let i1 = skip_ws(s, i0 + 1);
        if i1 < s.len() && s[i1] == '}' {
            Some((Map::empty(), i1 + 1))
        } else {
            scan_members(s, i0 + 1, Map::empty())
        }
    }
}

pub proof fn lemma_scan_members_advances(s: Seq<char>, i: int, acc: Map<Seq<char>, Seq<char>>)
    requires
        0 <= i <= s.len(),
    ensures
        match scan_members(s, i, acc) {
            Some(r) => i < r.1 <= s.len(),
            None => true,
        },
    decreases s.len() - i,
{
    lemma_skip_ws_bounds(s, i);
    let k0 = skip_ws(s, i);
    lemma_parse_string_advances(s, k0);
    match parse_string(s, k0) {
        None => {},
        Some((key, i2)) => {
            lemma_skip_ws_bounds(s, i2);
            let i3 = skip_ws(s, i2);
            if i3 < s.len() && s[i3] == ':' {
                lemma_skip_ws_bounds(s, i3 + 1);
                let i4 = skip_ws(s, i3 + 1);
                lemma_parse_string_advances(s, i4);
                match parse_string(s, i4) {
                    None => {},
                    Some((val, i5)) => {
                        if !(val.len() == 0 || acc.contains_key(key)) {
                            lemma_skip_ws_bounds(s, i5);
                            let i6 = skip_ws(s, i5);
                            if i6 < s.len() && s[i6] == ',' {
                                lemma_scan_members_advances(s, i6 + 1, acc.insert(key, val));
                            }
                        }
                    },
                }
            }
        },
    }
}

pub proof fn lemma_parse_member_obj_advances(s: Seq<char>, i: int)
    requires
        0 <= i <= s.len(),
    ensures
        match parse_member_obj(s, i) {
            Some(r) => i < r.1 <= s.len(),
            None => true,
        },
{
    lemma_skip_ws_bounds(s, i);
    let i0 = skip_ws(s, i);
    if i0 < s.len() && s[i0] == '{' {
        lemma_skip_ws_bounds(s, i0 + 1);
        lemma_scan_members_advances(s, i0 + 1, Map::empty());
    }
}

/// Scans the rooms of a snapshot object, the opening brace already
/// consumed: room names mapped to member objects, names unique.
pub open spec fn scan_rooms(
    s: Seq<char>,
    i: int,
    acc: Map<Seq<char>, Map<Seq<char>, Seq<char>>>,
) -> Option<(Map<Seq<char>, Map<Seq<char>, Seq<char>>>, int)>
    decreases s.len() - i,
    when 0 <= i <= s.len()
    via scan_rooms_decreases
{
    let k0 = skip_ws(s, i);
    match parse_string(s, k0) {
        None => None,
        Some((key, i2)) => {
            let i3 = skip_ws(s, i2);
            if !(i3 < s.len() && s[i3] == ':') {
                None
            } else {
                match parse_member_obj(s, i3 + 1) {
                    None => None,
                    Some((val, i5)) => {
                        if acc.contains_key(key) {
                            None
                        } else {
                            let acc2 = acc.insert(key, val);
                            let i6 = skip_ws(s, i5);
                            if i6 < s.len() && s[i6] == ',' {
                                scan_rooms(s, i6 + 1, acc2)
                            } else if i6 < s.len() && s[i6] == '}' {
                                Some((acc2, i6 + 1))
                            } else {
                                None
                            }
                        }
                    },
                }
            }
        },
    }
}

#[via_fn]
proof fn scan_rooms_decreases(s: Seq<char>, i: int, acc: Map<Seq<char>, Map<Seq<char>, Seq<char>>>) {
    lemma_skip_ws_bounds(s, i);
    let k0 = skip_ws(s, i);
    lemma_parse_string_advances(s, k0);
    match parse_string(s, k0) {
        None => {},
        Some((key, i2)) => {
            lemma_skip_ws_bounds(s, i2);
            let i3 = skip_ws(s, i2);
            if i3 < s.len() && s[i3] == ':' {
                lemma_parse_member_obj_advances(s, i3 + 1);
                match parse_member_obj(s, i3 + 1) {
                    None => {},
                    Some((val, i5)) => {
                        lemma_skip_ws_bounds(s, i5);
                    },
                }
            }
        },
    }
}

/// Parses a whole snapshot object at `i`.
pub open spec fn parse_rooms_obj(s: Seq<char>, i: int) -> Option<
    (Map<Seq<char>, Map<Seq<char>, Seq<char>>>, int),
> {
    let i0 = skip_ws(s, i);
    if !(0 <= i && i0 < s.len() && s[i0] == '{') {
        None
    } else {
        let i1 = skip_ws(s, i0 + 1);
        if i1 < s.len() && s[i1] == '}' {
            Some((Map::empty(), i1 + 1))
        } else {
            scan_rooms(s, i0 + 1, Map::empty())
        }
    }
}

/// Scans a record object of exactly three string fields named `ka`,
/// `kb`, `kc`, in any order, each at most once; the accumulator holds the
/// values seen so far.
pub open spec fn scan_record3(
    s: Seq<char>,
    i: int,
    ka: Seq<char>,
    kb: Seq<char>,
    kc: Seq<char>,
    a: Option<Seq<char>>,
    b: Option<Seq<char>>,
    c: Option<Seq<char>>,
) -> Option<((Option<Seq<char>>, Option<Seq<char>>, Option<Seq<char>>), int)>
    decreases s.len() - i,
    when 0 <= i <= s.len()
    via scan_record3_decreases
{
    let k0 = skip_ws(s, i);
    match parse_string(s, k0) {
        None => None,
        Some((key, i2)) => {
            let i3 = skip_ws(s, i2);
            if !(i3 < s.len() && s[i3] == ':') {
                None
            } else {
                let i4 = skip_ws(s, i3 + 1);
                match parse_string(s, i4) {
                    None => None,
                    Some((val, i5)) => {
                        let slot = if key == ka {
                            if a is Some {
                                None
                            } else {
                                Some((Some(val), b, c))
                            }
                        } else if key == kb {
                            if b is Some {
                                None
                            } else {
                                Some((a, Some(val), c))
                            }
                        } else if key == kc {
                            if c is Some {
                                None
                            } else {
                                Some((a, b, Some(val)))
                            }
                        } else {
                            None
                        };
                        match slot {
                            None => None,
                            Some((a2, b2, c2)) => {
                                let i6 = skip_ws(s, i5);
                                if i6 < s.len() && s[i6] == ',' {
                                    scan_record3(s, i6 + 1, ka, kb, kc, a2, b2, c2)
                                } else if i6 < s.len() && s[i6] == '}' {
                                    Some(((a2, b2, c2), i6 + 1))
                                } else {
                                    None
                                }
                            },
                        }
                    },
                }
            }
        },
    }
}

#[via_fn]
proof fn scan_record3_decreases(
    s: Seq<char>,
    i: int,
    ka: Seq<char>,
    kb: Seq<char>,
    kc: Seq<char>,
    a: Option<Seq<char>>,
    b: Option<Seq<char>>,
    c: Option<Seq<char>>,
) {
    lemma_skip_ws_bounds(s, i);
    let k0 = skip_ws(s, i);
    lemma_parse_string_advances(s, k0);
    match parse_string(s, k0) {
        None => {},
        Some((key, i2)) => {
            lemma_skip_ws_bounds(s, i2);
            let i3 = skip_ws(s, i2);
            if i3 < s.len() && s[i3] == ':' {
                lemma_skip_ws_bounds(s, i3 + 1);
                let i4 = skip_ws(s, i3 + 1);
                lemma_parse_string_advances(s, i4);
                match parse_string(s, i4) {
                    None => {},
                    Some((val, i5)) => {
                        lemma_skip_ws_bounds(s, i5);
                    },
                }
            }
        },
    }
}

/// Parses a record object of three string fields at `i`.
pub open spec fn parse_record3(s: Seq<char>, i: int, ka: Seq<char>, kb: Seq<char>, kc: Seq<char>)
    -> Option<((Option<Seq<char>>, Option<Seq<char>>, Option<Seq<char>>), int)> {
    let i0 = skip_ws(s, i);
    if !(0 <= i && i0 < s.len() && s[i0] == '{') {
        None
    } else {
        let i1 = skip_ws(s, i0 + 1);
        if i1 < s.len() && s[i1] == '}' {
            Some(((None, None, None), i1 + 1))
        } else {
            scan_record3(s, i0 + 1, ka, kb, kc, None, None, None)
        }
    }
}

/// The fields of a chat-message record, as far as they have been seen.
pub ghost struct MsgFields {
    pub id: Option<nat>,
    pub room: Option<Seq<char>>,
    pub from_id: Option<Seq<char>>,
    pub from_name: Option<Seq<char>>,
    pub content: Option<Seq<char>>,
    pub time: Option<Seq<char>>,
}

/// Scans a chat-message record: the field `id` holds an unsigned number,
/// the five others hold strings; each field exactly once, any order.
pub open spec fn scan_msg(s: Seq<char>, i: int, acc: MsgFields) -> Option<(MsgFields, int)>
    decreases s.len() - i,
    when 0 <= i <= s.len()
    via scan_msg_decreases
{
    let k0 = skip_ws(s, i);
    match parse_string(s, k0) {
        None => None,
        Some((key, i2)) => {
            let i3 = skip_ws(s, i2);
            if !(i3 < s.len() && s[i3] == ':') {
                None
            } else {
                let i4 = skip_ws(s, i3 + 1);
                let stepped: Option<(MsgFields, int)> = if key == "id"@ {
                    if acc.id is Some {
                        None
                    } else {
                        match parse_number(s, i4) {
                            None => None,
                            Some((v, i5)) => Some((MsgFields { id: Some(v), ..acc }, i5)),
                        }
                    }
                } else {
                    match parse_string(s, i4) {
                        None => None,
                        Some((val, i5)) => {
                            if key == "room"@ {
                                if acc.room is Some {
                                    None
                                } else {
                                    Some((MsgFields { room: Some(val), ..acc }, i5))
                                }
                            } else if key == "from_id"@ {
                                if acc.from_id is Some {
                                    None
                                } else {
                                    Some((MsgFields { from_id: Some(val), ..acc }, i5))
                                }
                            } else if key == "from_name"@ {
                                if acc.from_name is Some {
                                    None
                                } else {
                                    Some((MsgFields { from_name: Some(val), ..acc }, i5))
                                }
                            } else if key == "content"@ {
                                if acc.content is Some {
                                    None
                                } else {
                                    Some((MsgFields { content: Some(val), ..acc }, i5))
                                }
                            } else if key == "time"@ {
                                if acc.time is Some {
                                    None
                                } else {
                                    Some((MsgFields { time: Some(val), ..acc }, i5))
                                }
                            } else {
                                None
                            }
                        },
                    }
                };
                match stepped {
                    None => None,
                    Some((acc2, i5)) => {
                        let i6 = skip_ws(s, i5);
                        if i6 < s.len() && s[i6] == ',' {
                            scan_msg(s, i6 + 1, acc2)
                        } else if i6 < s.len() && s[i6] == '}' {
                            Some((acc2, i6 + 1))
                        } else {
                            None
                        }
                    },
                }
            }
        },
    }
}

#[via_fn]
proof fn scan_msg_decreases(s: Seq<char>, i: int, acc: MsgFields) {
    lemma_skip_ws_bounds(s, i);
    let k0 = skip_ws(s, i);
    lemma_parse_string_advances(s, k0);
    match parse_string(s, k0) {
        None => {},
        Some((key, i2)) => {
            lemma_skip_ws_bounds(s, i2);
            let i3 = skip_ws(s, i2);
            if i3 < s.len() && s[i3] == ':' {
                lemma_skip_ws_bounds(s, i3 + 1);
                let i4 = skip_ws(s, i3 + 1);
                lemma_parse_string_advances(s, i4);
                lemma_parse_number_advances(s, i4);
                match parse_string(s, i4) {
                    None => {},
                    Some((val, i5)) => {
                        lemma_skip_ws_bounds(s, i5);
                    },
                }
                match parse_number(s, i4) {
                    None => {},
                    Some((v, i5)) => {
                        lemma_skip_ws_bounds(s, i5);
                    },
                }
            }
        },
    }
}

/// Parses a whole chat-message record at `i`.
pub open spec fn parse_msg_obj(s: Seq<char>, i: int) -> Option<(MsgFields, int)> {
    let i0 = skip_ws(s, i);
    if !(0 <= i && i0 < s.len() && s[i0] == '{') {
        None
    } else {
        let i1 = skip_ws(s, i0 + 1);
        if i1 < s.len() && s[i1] == '}' {
            Some(
                (
                    MsgFields {
                        id: None,
                        room: None,
                        from_id: None,
                        from_name: None,
                        content: None,
                        time: None,
                    },
                    i1 + 1,
                ),
            )
        } else {
            scan_msg(
                s,
                i0 + 1,
                MsgFields {
                    id: None,
                    room: None,
                    from_id: None,
                    from_name: None,
                    content: None,
                    time: None,
                },
            )
        }
    }
}

/// A full snapshot payload: a rooms object and nothing but trailing
/// whitespace after it.
pub open spec fn spec_snapshot_payload(p: Seq<char>) -> Option<
    Map<Seq<char>, Map<Seq<char>, Seq<char>>>,
> {
    match parse_rooms_obj(p, 0) {
        None => None,
        Some((m, j)) => if skip_ws(p, j) == p.len() {
            Some(m)
        } else {
            None
        },
    }
}

/// A join payload: session id, display name and room, all present, the
/// display name non-empty.  Yields `(room, session id, display name)`.
pub open spec fn spec_join_payload(p: Seq<char>) -> Option<(Seq<char>, Seq<char>, Seq<char>)> {
    match parse_record3(p, 0, "session_id"@, "name"@, "room"@) {
        None => None,
        Some(((a, b, c), j)) => if skip_ws(p, j) == p.len() {
            match (a, b, c) {
                (Some(sid), Some(name), Some(room)) => if name.len() > 0 {
                    Some((room, sid, name))
                } else {
                    None
                },
                _ => None,
            }
        } else {
            None
        },
    }
}

/// A quit payload: the same record as a join; the name field is carried
/// on the wire but plays no part in a quit.  Yields `(room, session id)`.
pub open spec fn spec_quit_payload(p: Seq<char>) -> Option<(Seq<char>, Seq<char>)> {
    match parse_record3(p, 0, "session_id"@, "name"@, "room"@) {
        None => None,
        Some(((a, b, c), j)) => if skip_ws(p, j) == p.len() {
            match (a, b, c) {
                (Some(sid), Some(name), Some(room)) => Some((room, sid)),
                _ => None,
            }
        } else {
            None
        },
    }
}

/// A rename payload: session id, new name and old name, all present, the
/// new name non-empty; the old name plays no part.  Yields
/// `(session id, new name)`.
pub open spec fn spec_rename_payload(p: Seq<char>) -> Option<(Seq<char>, Seq<char>)> {
    match parse_record3(p, 0, "session_id"@, "name"@, "old_name"@) {
        None => None,
        Some(((a, b, c), j)) => if skip_ws(p, j) == p.len() {
            match (a, b, c) {
                (Some(sid), Some(name), Some(old)) => if name.len() > 0 {
                    Some((sid, name))
                } else {
                    None
                },
                _ => None,
            }
        } else {
            None
        },
    }
}

/// A chat payload: all six message fields present.  The stored message is
/// never the sender's own copy, so `is_own` is false.
pub open spec fn spec_chat_payload(p: Seq<char>) -> Option<MessageView> {
    match parse_msg_obj(p, 0) {
        None => None,
        Some((f, j)) => if skip_ws(p, j) == p.len() {
            match (f.id, f.room, f.from_id, f.from_name, f.content, f.time) {
                (Some(id), Some(room), Some(from_id), Some(from_name), Some(content), Some(time)) =>
                    Some(
                    MessageView {
                        id: id as u128,
                        room: room,
                        from_id: from_id,
                        from_name: from_name,
                        content: content,
                        time: time,
                        is_own: false,
                    },
                ),
                _ => None,
            }
        } else {
            None
        },
    }
}

/// One decoded inbound event.
pub enum Event {
    /// An authoritative full room listing replacing the registry.
    Snapshot(Vec<RoomEntry>),
    /// A member joined a room.
    Joined { room: String, session_id: String, display_name: String },
    /// A member left a room.
    Quit { room: String, session_id: String },
    /// A member changed display name everywhere.
    Renamed { session_id: String, display_name: String },
    /// A chat message for some room.
    Chat(MessageContent),
    /// A frame with an unrecognized tag, ignored for forward
    /// compatibility.
    Ignored,
}

/// The mathematical value of a decoded event.
pub ghost enum EventView {
    Snapshot(Map<Seq<char>, Map<Seq<char>, Seq<char>>>),
    Joined { room: Seq<char>, session_id: Seq<char>, display_name: Seq<char> },
    Quit { room: Seq<char>, session_id: Seq<char> },
    Renamed { session_id: Seq<char>, display_name: Seq<char> },
    Chat(MessageView),
    Ignored,
}

impl View for Event {
    type V = EventView;

    open spec fn view(&self) -> EventView {
        match self {
            Event::Snapshot(rooms) => EventView::Snapshot(rooms_map(rooms@)),
            Event::Joined { room, session_id, display_name } => EventView::Joined {
                room: room@,
                session_id: session_id@,
                display_name: display_name@,
            },
            Event::Quit { room, session_id } => EventView::Quit {
                room: room@,
                session_id: session_id@,
            },
            Event::Renamed { session_id, display_name } => EventView::Renamed {
                session_id: session_id@,
                display_name: display_name@,
            },
            Event::Chat(m) => EventView::Chat(m@),
            Event::Ignored => EventView::Ignored,
        }
    }
}

/// What a whole frame decodes to: `None` is a per-frame decode error (a
/// recognized tag with a malformed payload), `Ignored` an unrecognized
/// tag.
pub open spec fn spec_decode(s: Seq<char>) -> Option<EventView> {
    if crate::text::spec_has_prefix(s, "message:"@) {
        match spec_chat_payload(s.skip("message:"@.len() as int)) {
            Some(m) => Some(EventView::Chat(m)),
            None => None,
        }
    } else if crate::text::spec_has_prefix(s, "list:"@) {
        match spec_snapshot_payload(s.skip("list:"@.len() as int)) {
            Some(m) => Some(EventView::Snapshot(m)),
            None => None,
        }
    } else if crate::text::spec_has_prefix(s, "join_room:"@) {
        match spec_join_payload(s.skip("join_room:"@.len() as int)) {
            Some((room, sid, name)) => Some(
                EventView::Joined { room: room, session_id: sid, display_name: name },
            ),
            None => None,
        }
    } else if crate::text::spec_has_prefix(s, "quit_room:"@) {
        match spec_quit_payload(s.skip("quit_room:"@.len() as int)) {
            Some((room, sid)) => Some(EventView::Quit { room: room, session_id: sid }),
            None => None,
        }
    } else if crate::text::spec_has_prefix(s, "update_name:"@) {
        match spec_rename_payload(s.skip("update_name:"@.len() as int)) {
            Some((sid, name)) => Some(
                EventView::Renamed { session_id: sid, display_name: name },
            ),
            None => None,
        }
    } else {
        Some(EventView::Ignored)
    }
}

fn is_ws_exec(c: char) -> (r: bool)
    ensures
        r == is_ws(c),
{
    c == ' ' || c == '\n' || c == '\t' || c == '\r'
}

fn is_digit_exec(c: char) -> (r: bool)
    ensures
        r == is_digit(c),
{
    let v = c as u32;
    48 <= v && v <= 57
}

fn esc_exec(c: char) -> (r: Option<char>)
    ensures
        r == esc(c),
{
    if c == '"' {
        Some('"')
    } else if c == '\\' {
        Some('\\')
    } else if c == '/' {
        Some('/')
    } else if c == 'n' {
        Some('\n')
    } else if c == 't' {
        Some('\t')
    } else if c == 'r' {
        Some('\r')
    } else if c == 'b' {
        Some('\u{0008}')
    } else if c == 'f' {
        Some('\u{000C}')
    } else {
        None
    }
}

fn skip_ws_exec(s: &str, i: usize) -> (r: usize)
    requires
        i <= s@.len(),
    ensures
        r == skip_ws(s@, i as int),
        i <= r <= s@.len(),
{
    let n = s.unicode_len();
    let mut cur = i;
    while cur < n && is_ws_exec(s.get_char(cur))
        invariant
            n == s@.len(),
            i <= cur <= n,
            skip_ws(s@, i as int) == skip_ws(s@, cur as int),
        decreases n - cur,
    {
        cur = cur + 1;
    }
    cur
}

fn parse_string_exec(s: &str, i: usize) -> (r: Option<(String, usize)>)
    requires
        i <= s@.len(),
    ensures
        match r {
            Some(v) => parse_string(s@, i as int) == Some((v.0@, v.1 as int)) && i < v.1
                <= s@.len(),
            None => parse_string(s@, i as int) is None,
        },
{
    let n = s.unicode_len();
    if i >= n || s.get_char(i) != '"' {
        return None;
    }
    let mut acc = crate::text::empty_string();
    let mut cur = i + 1;
    while cur < n
        invariant
            n == s@.len(),
            i < n && s@[i as int] == '"',
            i + 1 <= cur <= n,
            scan_string(s@, i + 1, Seq::empty()) == scan_string(s@, cur as int, acc@),
        decreases n - cur,
    {
        let c = s.get_char(cur);
        if c == '"' {
            return Some((acc, cur + 1));
        } else if c == '\\' {
            if cur + 1 >= n {
                return None;
            }
            let c2 = s.get_char(cur + 1);
            match esc_exec(c2) {
                Some(e) => {
                    crate::text::push_char(&mut acc, e);
                    cur = cur + 2;
                },
                None => {
                    return None;
                },
            }
        } else if (c as u32) < 32 {
            return None;
        } else {
            crate::text::push_char(&mut acc, c);
            cur = cur + 1;
        }
    }
    None
}

fn parse_number_exec(s: &str, i: usize) -> (r: Option<(u128, usize)>)
    requires
        i <= s@.len(),
    ensures
        match r {
            Some(v) => parse_number(s@, i as int) == Some((v.0 as nat, v.1 as int)) && i < v.1
                <= s@.len(),
            None => parse_number(s@, i as int) is None,
        },
{
    let n = s.unicode_len();
    if i >= n {
        return None;
    }
    let c0 = s.get_char(i);
    if !is_digit_exec(c0) {
        return None;
    }
    if c0 == '0' {
        if i + 1 < n && is_digit_exec(s.get_char(i + 1)) {
            return None;
        }
        return Some((0, i + 1));
    }
    let mut acc: u128 = 0;
    let mut cur = i;
    while cur < n && is_digit_exec(s.get_char(cur))
        invariant
            n == s@.len(),
            i < n && is_digit(s@[i as int]) && s@[i as int] != '0',
            i <= cur <= n,
            scan_number(s@, i as int, 0) == scan_number(s@, cur as int, acc as nat),
        decreases n - cur,
    {
        let c = s.get_char(cur);
        let d = ((c as u32) - 48) as u128;
        let stepped = match acc.checked_mul(10) {
            Some(m) => m.checked_add(d),
            None => None,
        };
        match stepped {
            Some(v) => {
                acc = v;
                cur = cur + 1;
            },
            None => {
                return None;
            },
        }
    }
    proof {
        lemma_parse_number_advances(s@, i as int);
    }
    Some((acc, cur))
}

/// Whether the member list already binds this session id.
fn member_key_present(v: &Vec<MemberEntry>, key: &str) -> (r: bool)
    ensures
        r == members_map(v@).contains_key(key@),
{
    proof {
        crate::registry::lemma_members_map_domain(v@);
    }
    let n = v.len();
    let mut i: usize = 0;
    while i < n
        invariant
            n == v@.len(),
            i <= n,
            forall|t: int| 0 <= t < i ==> (#[trigger] v@[t]).session_id@ != key@,
        decreases n - i,
    {
        if crate::text::str_eq(v[i].session_id.as_str(), key) {
            proof {
                crate::registry::lemma_members_map_domain(v@);
                assert((#[trigger] v@[i as int]).session_id@ == key@);
                assert(crate::registry::has_member(v@, key@));
            }
            return true;
        }
        i = i + 1;
    }
    proof {
        if crate::registry::has_member(v@, key@) {
            let t = choose|t: int|
                0 <= t < v@.len() && (#[trigger] v@[t]).session_id@ == key@;
        }
    }
    false
}

/// Parses a member object, handing back the members as unique, named
/// association-list entries.
fn parse_member_obj_exec(s: &str, i: usize) -> (r: Option<(Vec<MemberEntry>, usize)>)
    requires
        i <= s@.len(),
    ensures
        match r {
            Some(v) => {
                &&& parse_member_obj(s@, i as int) == Some((members_map(v.0@), v.1 as int))
                &&& unique_members(v.0@)
                &&& members_named(v.0@)
                &&& i < v.1 <= s@.len()
            },
            None => parse_member_obj(s@, i as int) is None,
        },
{
    let n = s.unicode_len();
    let i0 = skip_ws_exec(s, i);
    if i0 >= n || s.get_char(i0) != '{' {
        return None;
    }
    let i1 = skip_ws_exec(s, i0 + 1);
    if i1 < n && s.get_char(i1) == '}' {
        let v: Vec<MemberEntry> = Vec::new();
        proof {
            assert(members_map(v@) =~= Map::<Seq<char>, Seq<char>>::empty());
        }
        return Some((v, i1 + 1));
    }
    let mut vec: Vec<MemberEntry> = Vec::new();
    let mut cur = i0 + 1;
    proof {
        assert(members_map(vec@) =~= Map::<Seq<char>, Seq<char>>::empty());
    }
    loop
        invariant
            n == s@.len(),
            i <= i0,
            i0 + 1 <= cur <= n,
            unique_members(vec@),
            members_named(vec@),
            scan_members(s@, i0 + 1, Map::empty()) == scan_members(
                s@,
                cur as int,
                members_map(vec@),
            ),
            parse_member_obj(s@, i as int) == scan_members(s@, i0 + 1, Map::empty()),
        decreases n - cur,
    {
        let k0 = skip_ws_exec(s, cur);
        let parsed_key = parse_string_exec(s, k0);
        match parsed_key {
            None => {
                return None;
            },
            Some((key, i2)) => {
                let i3 = skip_ws_exec(s, i2);
                if i3 >= n || s.get_char(i3) != ':' {
                    return None;
                }
                let i4 = skip_ws_exec(s, i3 + 1);
                let parsed_val = parse_string_exec(s, i4);
                match parsed_val {
                    None => {
                        return None;
                    },
                    Some((val, i5)) => {
                        if val.as_str().is_empty() {
                            return None;
                        }
                        if member_key_present(&vec, key.as_str()) {
                            return None;
                        }
                        let entry = MemberEntry { session_id: key, display_name: val };
                        proof {
                            crate::registry::lemma_members_map_push(vec@, entry);
                            crate::registry::lemma_members_map_domain(vec@);
                            let s_old = vec@;
                            assert forall|a: int, b: int|
                                0 <= a < b < s_old.push(entry).len() implies (
                            #[trigger] s_old.push(entry)[a]).session_id@ != (#[trigger] s_old.push(
                                entry,
                            )[b]).session_id@ by {
                                if b < s_old.len() {
                                    assert(s_old.push(entry)[a] == s_old[a]);
                                    assert(s_old.push(entry)[b] == s_old[b]);
                                } else {
                                    assert(s_old.push(entry)[a] == s_old[a]);
                                    assert(s_old.push(entry)[b] == entry);
                                    if s_old[a].session_id@ == entry.session_id@ {
                                        assert(crate::registry::has_member(
                                            s_old,
                                            entry.session_id@,
                                        ));
                                    }
                                }
                            }
                        }
                        vec.push(entry);
                        let i6 = skip_ws_exec(s, i5);
                        if i6 < n && s.get_char(i6) == ',' {
                            cur = i6 + 1;
                        } else if i6 < n && s.get_char(i6) == '}' {
                            return Some((vec, i6 + 1));
                        } else {
                            return None;
                        }
                    },
                }
            },
        }
    }
}

/// Whether the room list already binds this room name.
fn room_key_present(v: &Vec<RoomEntry>, key: &str) -> (r: bool)
    ensures
        r == rooms_map(v@).contains_key(key@),
{
    proof {
        crate::registry::lemma_rooms_map_domain(v@);
    }
    let n = v.len();
    let mut i: usize = 0;
    while i < n
        invariant
            n == v@.len(),
            i <= n,
            forall|t: int| 0 <= t < i ==> (#[trigger] v@[t]).name@ != key@,
        decreases n - i,
    {
        if crate::text::str_eq(v[i].name.as_str(), key) {
            proof {
                crate::registry::lemma_rooms_map_domain(v@);
                assert((#[trigger] v@[i as int]).name@ == key@);
                assert(crate::registry::has_room(v@, key@));
            }
            return true;
        }
        i = i + 1;
    }
    proof {
        if crate::registry::has_room(v@, key@) {
            let t = choose|t: int| 0 <= t < v@.len() && (#[trigger] v@[t]).name@ == key@;
        }
    }
    false
}

/// Parses a snapshot object, handing back the rooms as unique
/// association-list entries with unique, named member lists.
fn parse_rooms_obj_exec(s: &str, i: usize) -> (r: Option<(Vec<RoomEntry>, usize)>)
    requires
        i <= s@.len(),
    ensures
        match r {
            Some(v) => {
                &&& parse_rooms_obj(s@, i as int) == Some((rooms_map(v.0@), v.1 as int))
                &&& unique_rooms(v.0@)
                &&& forall|t: int| 0 <= t < v.0@.len() ==> unique_members(
                    (#[trigger] v.0@[t]).members@,
                )
                &&& forall|t: int| 0 <= t < v.0@.len() ==> members_named(
                    (#[trigger] v.0@[t]).members@,
                )
                &&& i < v.1 <= s@.len()
            },
            None => parse_rooms_obj(s@, i as int) is None,
        },
{
    let n = s.unicode_len();
    let i0 = skip_ws_exec(s, i);
    if i0 >= n || s.get_char(i0) != '{' {
        return None;
    }
    let i1 = skip_ws_exec(s, i0 + 1);
    if i1 < n && s.get_char(i1) == '}' {
        let v: Vec<RoomEntry> = Vec::new();
        proof {
            assert(rooms_map(v@) =~= Map::<Seq<char>, Map<Seq<char>, Seq<char>>>::empty());
        }
        return Some((v, i1 + 1));
    }
    let mut vec: Vec<RoomEntry> = Vec::new();
    let mut cur = i0 + 1;
    proof {
        assert(rooms_map(vec@) =~= Map::<Seq<char>, Map<Seq<char>, Seq<char>>>::empty());
    }
    loop
        invariant
            n == s@.len(),
            i <= i0,
            i0 + 1 <= cur <= n,
            unique_rooms(vec@),
            forall|t: int| 0 <= t < vec@.len() ==> unique_members(
                (#[trigger] vec@[t]).members@,
            ),
            forall|t: int| 0 <= t < vec@.len() ==> members_named(
                (#[trigger] vec@[t]).members@,
            ),
            scan_rooms(s@, i0 + 1, Map::empty()) == scan_rooms(s@, cur as int, rooms_map(vec@)),
            parse_rooms_obj(s@, i as int) == scan_rooms(s@, i0 + 1, Map::empty()),
        decreases n - cur,
    {
        let k0 = skip_ws_exec(s, cur);
        let parsed_key = parse_string_exec(s, k0);
        match parsed_key {
            None => {
                return None;
            },
            Some((key, i2)) => {
                let i3 = skip_ws_exec(s, i2);
                if i3 >= n || s.get_char(i3) != ':' {
                    return None;
                }
                let parsed_val = parse_member_obj_exec(s, i3 + 1);
                match parsed_val {
                    None => {
                        return None;
                    },
                    Some((members, i5)) => {
                        if room_key_present(&vec, key.as_str()) {
                            return None;
                        }
                        let entry = RoomEntry { name: key, members: members };
                        proof {
                            crate::registry::lemma_rooms_map_push(vec@, entry);
                            crate::registry::lemma_rooms_map_domain(vec@);
                            let s_old = vec@;
                            assert forall|a: int, b: int|
                                0 <= a < b < s_old.push(entry).len() implies (
                            #[trigger] s_old.push(entry)[a]).name@ != (#[trigger] s_old.push(
                                entry,
                            )[b]).name@ by {
                                if b < s_old.len() {
                                    assert(s_old.push(entry)[a] == s_old[a]);
                                    assert(s_old.push(entry)[b] == s_old[b]);
                                } else {
                                    assert(s_old.push(entry)[a] == s_old[a]);
                                    assert(s_old.push(entry)[b] == entry);
                                    if s_old[a].name@ == entry.name@ {
                                        assert(crate::registry::has_room(s_old, entry.name@));
                                    }
                                }
                            }
                            assert forall|t: int| 0 <= t < s_old.push(entry).len() implies
                                unique_members((#[trigger] s_old.push(entry)[t]).members@)
                                && members_named(s_old.push(entry)[t].members@) by {
                                if t < s_old.len() {
                                    assert(s_old.push(entry)[t] == s_old[t]);
                                } else {
                                    assert(s_old.push(entry)[t] == entry);
                                }
                            }
                        }
                        vec.push(entry);
                        let i6 = skip_ws_exec(s, i5);
                        if i6 < n && s.get_char(i6) == ',' {
                            cur = i6 + 1;
                        } else if i6 < n && s.get_char(i6) == '}' {
                            return Some((vec, i6 + 1));
                        } else {
                            return None;
                        }
                    },
                }
            },
        }
    }
}

/// The mathematical value of an optional string.
pub open spec fn opt_view(o: Option<String>) -> Option<Seq<char>> {
    match o {
        Some(s) => Some(s@),
        None => None,
    }
}

/// Parses a record object of three string fields named `ka`, `kb`, `kc`.
fn parse_record3_exec(s: &str, i: usize, ka: &str, kb: &str, kc: &str) -> (r: Option<
    ((Option<String>, Option<String>, Option<String>), usize),
>)
    requires
        i <= s@.len(),
        ka@ != kb@,
        ka@ != kc@,
        kb@ != kc@,
    ensures
        match r {
            Some(v) => parse_record3(s@, i as int, ka@, kb@, kc@) == Some(
                ((opt_view(v.0.0), opt_view(v.0.1), opt_view(v.0.2)), v.1 as int),
            ) && i < v.1 <= s@.len(),
            None => parse_record3(s@, i as int, ka@, kb@, kc@) is None,
        },
{
    let n = s.unicode_len();
    let i0 = skip_ws_exec(s, i);
    if i0 >= n || s.get_char(i0) != '{' {
        return None;
    }
    let i1 = skip_ws_exec(s, i0 + 1);
    if i1 < n && s.get_char(i1) == '}' {
        return Some(((None, None, None), i1 + 1));
    }
    let mut a: Option<String> = None;
    let mut b: Option<String> = None;
    let mut c: Option<String> = None;
    let mut cur = i0 + 1;
    loop
        invariant
            n == s@.len(),
            i <= i0,
            i0 + 1 <= cur <= n,
            scan_record3(s@, i0 + 1, ka@, kb@, kc@, None, None, None) == scan_record3(
                s@,
                cur as int,
                ka@,
                kb@,
                kc@,
                opt_view(a),
                opt_view(b),
                opt_view(c),
            ),
            parse_record3(s@, i as int, ka@, kb@, kc@) == scan_record3(
                s@,
                i0 + 1,
                ka@,
                kb@,
                kc@,
                None,
                None,
                None,
            ),
        decreases n - cur,
    {
        let k0 = skip_ws_exec(s, cur);
        let parsed_key = parse_string_exec(s, k0);
        match parsed_key {
            None => {
                return None;
            },
            Some((key, i2)) => {
                let i3 = skip_ws_exec(s, i2);
                if i3 >= n || s.get_char(i3) != ':' {
                    return None;
                }
                let i4 = skip_ws_exec(s, i3 + 1);
                let parsed_val = parse_string_exec(s, i4);
                match parsed_val {
                    None => {
                        return None;
                    },
                    Some((val, i5)) => {
                        if crate::text::str_eq(key.as_str(), ka) {
                            if a.is_some() {
                                return None;
                            }
                            a = Some(val);
                        } else if crate::text::str_eq(key.as_str(), kb) {
                            if b.is_some() {
                                return None;
                            }
                            b = Some(val);
                        } else if crate::text::str_eq(key.as_str(), kc) {
                            if c.is_some() {
                                return None;
                            }
                            c = Some(val);
                        } else {
                            return None;
                        }
                        let i6 = skip_ws_exec(s, i5);
                        if i6 < n && s.get_char(i6) == ',' {
                            cur = i6 + 1;
                        } else if i6 < n && s.get_char(i6) == '}' {
                            return Some(((a, b, c), i6 + 1));
                        } else {
                            return None;
                        }
                    },
                }
            },
        }
    }
}

/// The mathematical value of the six message-field slots.
pub open spec fn msg_fields_of(
    id: Option<u128>,
    room: Option<String>,
    from_id: Option<String>,
    from_name: Option<String>,
    content: Option<String>,
    time: Option<String>,
) -> MsgFields {
    MsgFields {
        id: match id {
            Some(v) => Some(v as nat),
            None => None,
        },
        room: opt_view(room),
        from_id: opt_view(from_id),
        from_name: opt_view(from_name),
        content: opt_view(content),
        time: opt_view(time),
    }
}

/// Parses a chat-message record object.
fn parse_msg_obj_exec(s: &str, i: usize) -> (r: Option<
    ((Option<u128>, Option<String>, Option<String>, Option<String>, Option<String>, Option<String>),
    usize),
>)
    requires
        i <= s@.len(),
    ensures
        match r {
            Some(v) => parse_msg_obj(s@, i as int) == Some(
                (msg_fields_of(v.0.0, v.0.1, v.0.2, v.0.3, v.0.4, v.0.5), v.1 as int),
            ) && i < v.1 <= s@.len(),
            None => parse_msg_obj(s@, i as int) is None,
        },
{
    let n = s.unicode_len();
    let i0 = skip_ws_exec(s, i);
    if i0 >= n || s.get_char(i0) != '{' {
        return None;
    }
    let i1 = skip_ws_exec(s, i0 + 1);
    if i1 < n && s.get_char(i1) == '}' {
        return Some(((None, None, None, None, None, None), i1 + 1));
    }
    let mut id: Option<u128> = None;
    let mut room: Option<String> = None;
    let mut from_id: Option<String> = None;
    let mut from_name: Option<String> = None;
    let mut content: Option<String> = None;
    let mut time: Option<String> = None;
    let mut cur = i0 + 1;
    loop
        invariant
            n == s@.len(),
            i <= i0,
            i0 + 1 <= cur <= n,
            scan_msg(
                s@,
                i0 + 1,
                MsgFields {
                    id: None,
                    room: None,
                    from_id: None,
                    from_name: None,
                    content: None,
                    time: None,
                },
            ) == scan_msg(s@, cur as int, msg_fields_of(id, room, from_id, from_name, content, time)),
            parse_msg_obj(s@, i as int) == scan_msg(
                s@,
                i0 + 1,
                MsgFields {
                    id: None,
                    room: None,
                    from_id: None,
                    from_name: None,
                    content: None,
                    time: None,
                },
            ),
        decreases n - cur,
    {
        let k0 = skip_ws_exec(s, cur);
        let parsed_key = parse_string_exec(s, k0);
        match parsed_key {
            None => {
                return None;
            },
            Some((key, i2)) => {
                let i3 = skip_ws_exec(s, i2);
                if i3 >= n || s.get_char(i3) != ':' {
                    return None;
                }
                let i4 = skip_ws_exec(s, i3 + 1);
                let i5: usize;
                if crate::text::str_eq(key.as_str(), "id") {
                    if id.is_some() {
                        return None;
                    }
                    match parse_number_exec(s, i4) {
                        None => {
                            return None;
                        },
                        Some((v, j)) => {
                            id = Some(v);
                            i5 = j;
                        },
                    }
                } else {
                    let parsed_val = parse_string_exec(s, i4);
                    match parsed_val {
                        None => {
                            return None;
                        },
                        Some((val, j)) => {
                            if crate::text::str_eq(key.as_str(), "room") {
                                if room.is_some() {
                                    return None;
                                }
                                room = Some(val);
                            } else if crate::text::str_eq(key.as_str(), "from_id") {
                                if from_id.is_some() {
                                    return None;
                                }
                                from_id = Some(val);
                            } else if crate::text::str_eq(key.as_str(), "from_name") {
                                if from_name.is_some() {
                                    return None;
                                }
                                from_name = Some(val);
                            } else if crate::text::str_eq(key.as_str(), "content") {
                                if content.is_some() {
                                    return None;
                                }
                                content = Some(val);
                            } else if crate::text::str_eq(key.as_str(), "time") {
                                if time.is_some() {
                                    return None;
                                }
                                time = Some(val);
                            } else {
                                return None;
                            }
                            i5 = j;
                        },
                    }
                }
                let i6 = skip_ws_exec(s, i5);
                if i6 < n && s.get_char(i6) == ',' {
                    cur = i6 + 1;
                } else if i6 < n && s.get_char(i6) == '}' {
                    return Some(((id, room, from_id, from_name, content, time), i6 + 1));
                } else {
                    return None;
                }
            },
        }
    }
}

/// Well-formedness that every decoded event carries: snapshot lists have
/// unique rooms with unique, named members, and join / rename events
/// carry a non-empty display name.
pub open spec fn event_wf(ev: Event) -> bool {
    match ev {
        Event::Snapshot(rooms) => {
            &&& unique_rooms(rooms@)
            &&& forall|t: int| 0 <= t < rooms@.len() ==> unique_members(
                (#[trigger] rooms@[t]).members@,
            )
            &&& forall|t: int| 0 <= t < rooms@.len() ==> members_named(
                (#[trigger] rooms@[t]).members@,
            )
        },
        Event::Joined { room, session_id, display_name } => display_name@.len() > 0,
        Event::Renamed { session_id, display_name } => display_name@.len() > 0,
        _ => true,
    }
}

/// Decodes one inbound frame: classifies it by its literal tag and
/// parses the payload against that tag's grammar.  An unrecognized tag
/// yields `Event::Ignored`; a recognized tag with a payload outside the
/// grammar yields a `DecodeError`, on which the caller drops the frame.
pub fn decode_frame(frame: &str) -> (r: Result<Event, DecodeError>)
    ensures
        match r {
            Ok(ev) => spec_decode(frame@) == Some(ev@) && event_wf(ev),
            Err(e) => spec_decode(frame@) is None,
        },
{
    let n = frame.unicode_len();
    if crate::text::has_prefix(frame, "message:") {
        proof {
            reveal_strlit("message:");
        }
        let p = frame.substring_char(8, n);
        proof {
            assert(p@ =~= frame@.skip("message:"@.len() as int));
        }
        let plen = p.unicode_len();
        match parse_msg_obj_exec(p, 0) {
            None => Err(DecodeError),
            Some((fields, j)) => {
                let j2 = skip_ws_exec(p, j);
                if j2 != plen {
                    return Err(DecodeError);
                }
                match fields {
                    (Some(id), Some(room), Some(from_id), Some(from_name), Some(content), Some(
                        time,
                    )) => Ok(
                        Event::Chat(
                            MessageContent {
                                id: id,
                                room: room,
                                from_id: from_id,
                                from_name: from_name,
                                content: content,
                                time: time,
                                is_own: false,
                            },
                        ),
                    ),
                    _ => Err(DecodeError),
                }
            },
        }
    } else if crate::text::has_prefix(frame, "list:") {
        proof {
            reveal_strlit("list:");
        }
        let p = frame.substring_char(5, n);
        proof {
            assert(p@ =~= frame@.skip("list:"@.len() as int));
        }
        let plen = p.unicode_len();
        match parse_rooms_obj_exec(p, 0) {
            None => Err(DecodeError),
            Some((rooms, j)) => {
                let j2 = skip_ws_exec(p, j);
                if j2 != plen {
                    return Err(DecodeError);
                }
                Ok(Event::Snapshot(rooms))
            },
        }
    } else if crate::text::has_prefix(frame, "join_room:") {
        proof {
            reveal_strlit("join_room:");
            reveal_strlit("session_id");
            reveal_strlit("name");
            reveal_strlit("room");
            assert("session_id"@.len() == 10 && "name"@.len() == 4 && "room"@.len() == 4);
            assert("name"@[0] != "room"@[0]);
        }
        let p = frame.substring_char(10, n);
        proof {
            assert(p@ =~= frame@.skip("join_room:"@.len() as int));
        }
        let plen = p.unicode_len();
        match parse_record3_exec(p, 0, "session_id", "name", "room") {
            None => Err(DecodeError),
            Some(((a, b, c), j)) => {
                let j2 = skip_ws_exec(p, j);
                if j2 != plen {
                    return Err(DecodeError);
                }
                match (a, b, c) {
                    (Some(sid), Some(name), Some(room)) => {
                        if name.as_str().is_empty() {
                            Err(DecodeError)
                        } else {
                            Ok(
                                Event::Joined {
                                    room: room,
                                    session_id: sid,
                                    display_name: name,
                                },
                            )
                        }
                    },
                    _ => Err(DecodeError),
                }
            },
        }
    } else if crate::text::has_prefix(frame, "quit_room:") {
        proof {
            reveal_strlit("quit_room:");
            reveal_strlit("session_id");
            reveal_strlit("name");
            reveal_strlit("room");
            assert("session_id"@.len() == 10 && "name"@.len() == 4 && "room"@.len() == 4);
            assert("name"@[0] != "room"@[0]);
        }
        let p = frame.substring_char(10, n);
        proof {
            assert(p@ =~= frame@.skip("quit_room:"@.len() as int));
        }
        let plen = p.unicode_len();
        match parse_record3_exec(p, 0, "session_id", "name", "room") {
            None => Err(DecodeError),
            Some(((a, b, c), j)) => {
                let j2 = skip_ws_exec(p, j);
                if j2 != plen {
                    return Err(DecodeError);
                }
                match (a, b, c) {
                    (Some(sid), Some(name), Some(room)) => Ok(
                        Event::Quit { room: room, session_id: sid },
                    ),
                    _ => Err(DecodeError),
                }
            },
        }
    } else if crate::text::has_prefix(frame, "update_name:") {
        proof {
            reveal_strlit("update_name:");
            reveal_strlit("session_id");
            reveal_strlit("name");
            reveal_strlit("old_name");
            assert("session_id"@.len() == 10 && "name"@.len() == 4 && "old_name"@.len() == 8);
        }
        let p = frame.substring_char(12, n);
        proof {
            assert(p@ =~= frame@.skip("update_name:"@.len() as int));
        }
        let plen = p.unicode_len();
        match parse_record3_exec(p, 0, "session_id", "name", "old_name") {
            None => Err(DecodeError),
            Some(((a, b, c), j)) => {
                let j2 = skip_ws_exec(p, j);
                if j2 != plen {
                    return Err(DecodeError);
                }
                match (a, b, c) {
                    (Some(sid), Some(name), Some(old)) => {
                        if name.as_str().is_empty() {
                            Err(DecodeError)
                        } else {
                            Ok(Event::Renamed { session_id: sid, display_name: name })
                        }
                    },
                    _ => Err(DecodeError),
                }
            },
        }
    } else {
        Ok(Event::Ignored)
    }
}

} // verus!
