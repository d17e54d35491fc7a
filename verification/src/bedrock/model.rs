//! The status that a Bedrock edition server reports: `;`-separated fields.
use crate::error::PingError;
use crate::text::{
    all_ascii_digits, chars_of, decimal_value, is_plain_decimal, parse_unsigned, parse_unsigned_spec, string_from_chars,
    unsigned_digits,
};
use vstd::prelude::*;
use vstd::std_specs::convert::TryFromSpecImpl;

verus! {

/// A Bedrock server's answer to a ping, with the measured latency.
#[derive(Debug, Default)]
pub struct BedrockPing {
    pub edition: String,
    pub motd: String,
    pub protocol_version: u32,
    pub version: String,
    pub current_players: u32,
    pub max_players: u32,
    pub server_id: String,
    pub map_name: String,
    pub game_mode: String,
    pub numeric_id: Option<u8>,
    pub port: Option<u16>,
    pub unknown_val: Option<u32>,
    pub latency: u32,
}

/// The pieces of `s` between `;` separators, as `str::split(';')` gives them
/// (an empty text has one empty piece).
pub open spec fn split_fields(s: Seq<char>) -> Seq<Seq<char>>
    decreases s.len(),
{
    if s.len() == 0 {
        seq![Seq::<char>::empty()]
    } else {
        let front = split_fields(s.drop_last());
        if s.last() == ';' {
            front.push(Seq::<char>::empty())
        } else {
            front.update(front.len() - 1, front.last().push(s.last()))
        }
    }
}

/// The number in a field, or 0 when it does not parse.
pub open spec fn number_or_zero(field: Seq<char>, max: nat) -> nat {
    match parse_unsigned_spec(field, max) {
        Some(v) => v,
        None => 0,
    }
}

/// The number in field `i` when there is such a field and it parses.
pub open spec fn optional_number(parts: Seq<Seq<char>>, i: int, max: nat) -> Option<nat> {
    if i < parts.len() {
        parse_unsigned_spec(parts[i], max)
    } else {
        None
    }
}

/// The ping that the fields `parts` describe (there are at least eight): the
/// first eight in order, then game mode, numeric id, port and one more number
/// when present; a number that does not parse is 0 when required and absent
/// when optional.
pub open spec fn describes(p: BedrockPing, parts: Seq<Seq<char>>) -> bool {
    &&& p.edition@ == parts[0]
    &&& p.motd@ == parts[1]
    &&& p.protocol_version == number_or_zero(parts[2], u32::MAX as nat)
    &&& p.version@ == parts[3]
    &&& p.current_players == number_or_zero(parts[4], u32::MAX as nat)
    &&& p.max_players == number_or_zero(parts[5], u32::MAX as nat)
    &&& p.server_id@ == parts[6]
    &&& p.map_name@ == parts[7]
    &&& p.game_mode@ == (if parts.len() > 8 { parts[8] } else { Seq::<char>::empty() })
    &&& p.numeric_id == (match optional_number(parts, 9, u8::MAX as nat) {
        Some(v) => Some(v as u8),
        None => None,
    })
    &&& p.port == (match optional_number(parts, 10, u16::MAX as nat) {
        Some(v) => Some(v as u16),
        None => None,
    })
    &&& p.unknown_val == (match optional_number(parts, 11, u32::MAX as nat) {
        Some(v) => Some(v as u32),
        None => None,
    })
    &&& p.latency == 0
}

/// What parsing the status text `text` yields.
pub open spec fn bedrock_parse_result(text: Seq<char>, r: Result<BedrockPing, PingError>) -> bool {
    let parts = split_fields(text);
    if parts.len() < 8 {
        r matches Err(PingError::ParseResponse)
    } else {
        r matches Ok(p) && describes(p, parts)
    }
}

/// The pieces joined back together with `;` between them.
pub open spec fn join_fields(parts: Seq<Seq<char>>) -> Seq<char>
    decreases parts.len(),
{
    if parts.len() <= 1 {
        if parts.len() == 0 { Seq::empty() } else { parts[0] }
    } else {
        join_fields(parts.drop_last()) + seq![';'] + parts.last()
    }
}

/// The fields of a status text are the pieces between its `;` separators:
/// there is at least one, none contains a `;`, and joining them with `;`
/// gives back the text.
pub proof fn lemma_split_fields_join(text: Seq<char>)
    ensures
        split_fields(text).len() >= 1,
        join_fields(split_fields(text)) == text,
        forall|k: int, i: int|
            0 <= k < split_fields(text).len() && 0 <= i < split_fields(text)[k].len()
                ==> #[trigger] split_fields(text)[k][i] != ';',
    decreases text.len(),
{
    if text.len() == 0 {
        assert(split_fields(text) =~= seq![Seq::<char>::empty()]);
        assert(text =~= Seq::<char>::empty());
    } else {
        let front = split_fields(text.drop_last());
        lemma_split_fields_join(text.drop_last());
        let c = text.last();
        let parts = split_fields(text);
        if c == ';' {
            assert(parts.drop_last() =~= front);
            assert(text =~= text.drop_last() + seq![';'] + Seq::<char>::empty());
        } else {
            let n = front.len();
            assert(parts.len() == n);
            if n == 1 {
                assert(text =~= front[0].push(c)) by {
                    assert(join_fields(front) == front[0]);
                }
            } else {
                assert(parts.drop_last() =~= front.drop_last());
                assert(text =~= join_fields(front.drop_last()) + seq![';'] + front.last().push(c)) by {
                    assert(text =~= join_fields(front).push(c));
                }
            }
            assert forall|k: int, i: int|
                0 <= k < parts.len() && 0 <= i < parts[k].len() implies #[trigger] parts[k][i] != ';' by {
                if k == n - 1 && i == parts[k].len() - 1 {
                    assert(parts[k][i] == c);
                } else if k == n - 1 {
                    assert(parts[k][i] == front[k][i]);
                } else {
                    assert(parts[k] == front[k]);
                }
            }
        }
    }
}

/// A required number parsed with the full range `0..=limit` of its field type.
pub open spec fn required_number_law(f: Seq<char>, limit: nat, got: nat) -> bool {
    &&& (is_plain_decimal(f) && decimal_value(f) <= limit) ==> got == decimal_value(f)
    &&& (is_plain_decimal(f) && decimal_value(f) > limit) ==> got == 0
    &&& f.len() == 0 ==> got == 0
}

/// An optional number parsed with the full range `0..=limit` of its field type.
pub open spec fn optional_number_law(parts: Seq<Seq<char>>, i: int, limit: nat, got: Option<nat>) -> bool {
    &&& parts.len() <= i ==> got is None
    &&& (parts.len() > i && is_plain_decimal(parts[i]) && decimal_value(parts[i]) <= limit) ==> got
        == Some(decimal_value(parts[i]))
    &&& (parts.len() > i && is_plain_decimal(parts[i]) && decimal_value(parts[i]) > limit) ==> got
        is None
    &&& (parts.len() > i && parts[i].len() == 0) ==> got is None
}

/// The numbers of a Bedrock status are read with the whole range of their
/// field: protocol version, player counts and the last number as `u32`
/// (up to 4294967295), the numeric id as `u8` (up to 255) and the port as
/// `u16` (up to 65535). A field of plain digits within that range gives its
/// decimal value; one beyond it, or an empty field, gives 0 when the number is
/// required and nothing when it is optional. The text fields are the pieces
/// of the status text in order.
pub proof fn lemma_bedrock_fields(text: Seq<char>, p: BedrockPing)
    requires
        bedrock_parse_result(text, Ok(p)),
    ensures
        ({
            let parts = split_fields(text);
            &&& parts.len() >= 8
            &&& p.edition@ == parts[0] && p.motd@ == parts[1] && p.version@ == parts[3]
            &&& p.server_id@ == parts[6] && p.map_name@ == parts[7]
            &&& required_number_law(parts[2], 4294967295, p.protocol_version as nat)
            &&& required_number_law(parts[4], 4294967295, p.current_players as nat)
            &&& required_number_law(parts[5], 4294967295, p.max_players as nat)
            &&& optional_number_law(parts, 9, 255, match p.numeric_id {
                Some(v) => Some(v as nat),
                None => None,
            })
            &&& optional_number_law(parts, 10, 65535, match p.port {
                Some(v) => Some(v as nat),
                None => None,
            })
            &&& optional_number_law(parts, 11, 4294967295, match p.unknown_val {
                Some(v) => Some(v as nat),
                None => None,
            })
        }),
{
    let parts = split_fields(text);
    assert forall|f: Seq<char>| is_plain_decimal(f) implies unsigned_digits(f) == f
        && all_ascii_digits(f) by {
        assert('0' <= f[0] <= '9');
    }
}

/// Splitting always gives at least one piece.
proof fn lemma_split_nonempty(s: Seq<char>)
    ensures
        split_fields(s).len() >= 1,
    decreases s.len(),
{
    if s.len() > 0 {
        lemma_split_nonempty(s.drop_last());
    }
}

/// Splits a text on `;`.
fn split_on_semicolons(text: &str) -> (parts: Vec<String>)
    ensures
        parts@.map_values(|p: String| p@) == split_fields(text@),
{
    let chars = chars_of(text);
    let mut parts: Vec<String> = Vec::new();
    let mut current: Vec<char> = Vec::new();
    let n = chars.len();
    for i in 0..n
        invariant
            n == chars@.len(),
            chars@ == text@,
            parts@.map_values(|p: String| p@).push(current@) == split_fields(text@.take(i as int)),
    {
        let c = chars[i];
        let ghost prefix = text@.take(i + 1);
        assert(prefix.drop_last() =~= text@.take(i as int));
        proof {
            lemma_split_nonempty(text@.take(i as int));
        }
        if c == ';' {
            let finished = string_from_chars(current);
            parts.push(finished);
            current = Vec::new();
            assert(parts@.map_values(|p: String| p@).push(current@) =~= split_fields(prefix));
        } else {
            current.push(c);
            assert(parts@.map_values(|p: String| p@).push(current@) =~= split_fields(prefix));
        }
    }
    assert(text@.take(n as int) =~= text@);
    let last = string_from_chars(current);
    parts.push(last);
    assert(parts@.map_values(|p: String| p@) =~= split_fields(text@));
    parts
}

impl TryFromSpecImpl<String> for BedrockPing {
    /// A `String` is not fixed by its text in specifications, so no spec
    /// function can give the exact result; `try_from` states it in its own
    /// `ensures` instead.
    open spec fn obeys_try_from_spec() -> bool {
        false
    }

    open spec fn try_from_spec(data: String) -> Result<BedrockPing, PingError> {
        let parts = split_fields(data@);
        if parts.len() < 8 {
            Err(PingError::ParseResponse)
        } else {
            Ok(choose|p: BedrockPing| describes(p, parts))
        }
    }
}

impl TryFrom<String> for BedrockPing {
    type Error = PingError;

    /// Parses the status text a Bedrock server sends:
    /// `edition;motd;protocol;version;players;max players;server id;map[;game mode[;numeric id[;port[;...]]]]`.
    /// Fewer than eight fields is `ParseResponse`.
    fn try_from(data: String) -> (r: Result<BedrockPing, PingError>)
        ensures
            bedrock_parse_result(data@, r),
    {
        let parts = split_on_semicolons(data.as_str());
        let ghost views = parts@.map_values(|p: String| p@);
        assert(forall|i: int| 0 <= i < parts@.len() ==> #[trigger] parts@[i]@ == views[i]);
        if parts.len() < 8 {
            return Err(PingError::ParseResponse);
        }
        let protocol_version = match parse_unsigned(parts[2].as_str(), u32::MAX) {
            Some(v) => v,
            None => 0,
        };
        let current_players = match parse_unsigned(parts[4].as_str(), u32::MAX) {
            Some(v) => v,
            None => 0,
        };
        let max_players = match parse_unsigned(parts[5].as_str(), u32::MAX) {
            Some(v) => v,
            None => 0,
        };
        let game_mode = if parts.len() > 8 {
            parts[8].clone()
        } else {
            String::new()
        };
        let numeric_id = if parts.len() > 9 {
            match parse_unsigned(parts[9].as_str(), 255) {
                Some(v) => Some(v as u8),
                None => None,
            }
        } else {
            None
        };
        let port = if parts.len() > 10 {
            match parse_unsigned(parts[10].as_str(), 65535) {
                Some(v) => Some(v as u16),
                None => None,
            }
        } else {
            None
        };
        let unknown_val = if parts.len() > 11 {
            parse_unsigned(parts[11].as_str(), u32::MAX)
        } else {
            None
        };
        Ok(
            BedrockPing {
                edition: parts[0].clone(),
                motd: parts[1].clone(),
                protocol_version,
                version: parts[3].clone(),
                current_players,
                max_players,
                server_id: parts[6].clone(),
                map_name: parts[7].clone(),
                game_mode,
                numeric_id,
                port,
                unknown_val,
                latency: 0,
            },
        )
    }
}

} // verus!
