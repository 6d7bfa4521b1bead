//! The line grammar, stated as specification functions over character
//! sequences, and the executable parser proved to recognize exactly that
//! grammar.
//!
//! A line is `[tags] [source] body` where the body is either a capability
//! message (`CAP <nick> <subcommand>`) or a generic command with parameters.
//! Each parsing function takes a position and yields the parsed value and
//! the position after it, or nothing when the text does not match.

use vstd::prelude::*;
use vstd::pervasive::unreached;

use crate::capability::{Capability, CapabilityModel};
use crate::generic_message::{Command, CommandModel, GenericMessage, GenericMessageModel};
use crate::message::{
    spec_tag_insert, tags_wf, Message, MessageModel, MessageType, MessageTypeModel, Source,
    SourceModel, Tag, TagModel, User, UserModel,
};
use crate::msg_cap::{CapNick, CapNickModel, MsgCap, MsgCapModel, SubCommand, SubCommandModel};
use crate::text::{
    cap_key_pred, cap_value_pred, char_digit_val, is_digit, key_pred, letter_pred, name_pred,
    nocrlf_pred, nospcrlf_pred, spec_unescape, tag_value_pred, token_end, user_pred,
};

verus! {

// ---------------------------------------------------------------------------
// The grammar.
// ---------------------------------------------------------------------------

/// One tag: a non-empty key, optionally `=` and a (possibly empty) escaped
/// value, which is surfaced unescaped.
pub open spec fn spec_parse_tag(s: Seq<char>, i: int) -> Option<(TagModel, int)> {
    let ke = token_end(s, i, key_pred());
    if ke == i {
        None
    } else if ke < s.len() && s[ke] == '=' {
        let ve = token_end(s, ke + 1, tag_value_pred());
        Some((TagModel { key: s.subrange(i, ke), value: Some(spec_unescape(s.subrange(ke + 1, ve))) }, ve))
    } else {
        Some((TagModel { key: s.subrange(i, ke), value: None }, ke))
    }
}

/// The `;`-separated tag list; a repeated key keeps the last value.
pub open spec fn spec_parse_tag_list(s: Seq<char>, i: int, acc: Seq<TagModel>) -> Option<
    (Seq<TagModel>, int),
>
    decreases s.len() - i,
{
    match spec_parse_tag(s, i) {
        None => None,
        Some((t, j)) => {
            let acc2 = spec_tag_insert(acc, t);
            if j < s.len() && s[j] == ';' {
                if i < j {
                    spec_parse_tag_list(s, j + 1, acc2)
                } else {
                    // a tag never ends where it began; never taken
                    None
                }
            } else {
                Some((acc2, j))
            }
        },
    }
}

/// The tags part of a line: `@`, the tag list, one space — or nothing.
pub open spec fn spec_parse_tags_part(s: Seq<char>) -> Option<(Seq<TagModel>, int)> {
    if s.len() == 0 || s[0] != '@' {
        Some((Seq::empty(), 0))
    } else {
        match spec_parse_tag_list(s, 1, Seq::empty()) {
            None => None,
            Some((tags, j)) => {
                if j < s.len() && s[j] == ' ' {
                    Some((tags, j + 1))
                } else {
                    None
                }
            },
        }
    }
}

/// The source part of a line: `:`, `name [!user] [@host]`, one space — or
/// nothing. A bare name is a host source; one with a user or host part names
/// a user.
pub open spec fn spec_parse_source_part(s: Seq<char>, i: int) -> Option<
    (Option<SourceModel>, int),
> {
    if i >= s.len() || s[i] != ':' {
        Some((None, i))
    } else {
        let ne = token_end(s, i + 1, name_pred());
        if ne == i + 1 {
            None
        } else {
            let name = s.subrange(i + 1, ne);
            let upart = if ne < s.len() && s[ne] == '!' {
                let ue = token_end(s, ne + 1, user_pred());
                if ue == ne + 1 {
                    None
                } else {
                    Some((Some(s.subrange(ne + 1, ue)), ue))
                }
            } else {
                Some((None::<Seq<char>>, ne))
            };
            match upart {
                None => None,
                Some((user, j)) => {
                    let hpart = if j < s.len() && s[j] == '@' {
                        let he = token_end(s, j + 1, nospcrlf_pred());
                        if he == j + 1 {
                            None
                        } else {
                            Some((Some(s.subrange(j + 1, he)), he))
                        }
                    } else {
                        Some((None::<Seq<char>>, j))
                    };
                    match hpart {
                        None => None,
                        Some((host, k)) => {
                            if k < s.len() && s[k] == ' ' {
                                let src = if user is None && host is None {
                                    SourceModel::Host(name)
                                } else {
                                    SourceModel::User(UserModel { nick: name, user, host })
                                };
                                Some((Some(src), k + 1))
                            } else {
                                None
                            }
                        },
                    }
                },
            }
        }
    }
}

/// The command: exactly three digits, or one or more letters.
pub open spec fn spec_parse_command(s: Seq<char>, i: int) -> Option<(CommandModel, int)> {
    if i < s.len() && is_digit(s[i]) {
        if i + 3 <= s.len() && is_digit(s[i + 1]) && is_digit(s[i + 2]) {
            Some(
                (
                    CommandModel::Digit3(
                        100 * char_digit_val(s[i]) + 10 * char_digit_val(s[i + 1])
                            + char_digit_val(s[i + 2]),
                    ),
                    i + 3,
                ),
            )
        } else {
            None
        }
    } else {
        let le = token_end(s, i, letter_pred());
        if le == i {
            None
        } else {
            Some((CommandModel::Cmd(s.subrange(i, le)), le))
        }
    }
}

/// The parameters, through the end of the line: each one preceded by one
/// space; a parameter opening with `:` is the trailing parameter, reaches
/// the end of the line, and must be the last.
pub open spec fn spec_parse_params(s: Seq<char>, j: int, acc: Seq<Seq<char>>) -> Option<
    Seq<Seq<char>>,
>
    decreases s.len() - j,
{
    if j >= s.len() {
        Some(acc)
    } else if s[j] != ' ' {
        None
    } else if j + 1 < s.len() && s[j + 1] == ':' {
        let te = token_end(s, j + 2, nocrlf_pred());
        if te == s.len() {
            Some(acc.push(s.subrange(j + 2, s.len() as int)))
        } else {
            None
        }
    } else {
        let me = token_end(s, j + 1, nospcrlf_pred());
        if me <= j + 1 || me > s.len() {
            None
        } else {
            spec_parse_params(s, me, acc.push(s.subrange(j + 1, me)))
        }
    }
}

/// A generic body, through the end of the line.
pub open spec fn spec_parse_generic(s: Seq<char>, i: int) -> Option<GenericMessageModel> {
    match spec_parse_command(s, i) {
        None => None,
        Some((cmd, j)) => match spec_parse_params(s, j, Seq::empty()) {
            None => None,
            Some(ps) => Some(GenericMessageModel { command: cmd, parameters: ps }),
        },
    }
}

/// One capability: an optional `-` for a disabled one, a non-empty key, and
/// optionally `=` with comma-separated values. A disabled capability keeps
/// only its name.
pub open spec fn spec_parse_capability(s: Seq<char>, p: int) -> Option<(CapabilityModel, int)> {
    let disabled = p < s.len() && s[p] == '-';
    let p1 = if disabled {
        p + 1
    } else {
        p
    };
    let ke = token_end(s, p1, cap_key_pred());
    if ke == p1 {
        None
    } else {
        let key = s.subrange(p1, ke);
        if ke < s.len() && s[ke] == '=' {
            match spec_parse_cap_values(s, ke + 1, Seq::empty()) {
                None => None,
                Some((vals, q)) => {
                    let cap = if disabled {
                        CapabilityModel::Disabled(key)
                    } else {
                        CapabilityModel::Values(key, vals)
                    };
                    Some((cap, q))
                },
            }
        } else {
            let cap = if disabled {
                CapabilityModel::Disabled(key)
            } else {
                CapabilityModel::Single(key)
            };
            Some((cap, ke))
        }
    }
}

/// The comma-separated, non-empty values of a capability.
pub open spec fn spec_parse_cap_values(s: Seq<char>, v: int, acc: Seq<Seq<char>>) -> Option<
    (Seq<Seq<char>>, int),
>
    decreases s.len() - v,
{
    let ve = token_end(s, v, cap_value_pred());
    if ve <= v {
        None
    } else if ve < s.len() && s[ve] == ',' {
        spec_parse_cap_values(s, ve + 1, acc.push(s.subrange(v, ve)))
    } else {
        Some((acc.push(s.subrange(v, ve)), ve))
    }
}

/// The space-separated capability list, through the end of the line; it may
/// be empty.
pub open spec fn spec_parse_caps(s: Seq<char>, p: int, acc: Seq<CapabilityModel>) -> Option<
    Seq<CapabilityModel>,
>
    decreases s.len() - p,
{
    if p >= s.len() {
        Some(acc)
    } else {
        match spec_parse_capability(s, p) {
            None => None,
            Some((cap, q)) => {
                if q >= s.len() {
                    Some(acc.push(cap))
                } else if s[q] == ' ' && p < q {
                    spec_parse_caps(s, q + 1, acc.push(cap))
                } else {
                    None
                }
            },
        }
    }
}

/// A capability message, through the end of the line: `CAP`, a space, the
/// target (`*` or a nick), a space, the subcommand name, a space, `* ` where
/// the multiline flag is allowed and set, then `:` and the capability list.
pub open spec fn spec_parse_msg_cap(s: Seq<char>, i: int) -> Option<MsgCapModel> {
    if !(i + 4 <= s.len() && s[i] == 'C' && s[i + 1] == 'A' && s[i + 2] == 'P' && s[i + 3] == ' ') {
        None
    } else {
        let j = i + 4;
        let npart = if j < s.len() && s[j] == '*' {
            Some((CapNickModel::Star, j + 1))
        } else {
            let ne = token_end(s, j, nospcrlf_pred());
            if ne == j {
                None
            } else {
                Some((CapNickModel::Nick(s.subrange(j, ne)), ne))
            }
        };
        match npart {
            None => None,
            Some((nick, k)) => {
                if !(k < s.len() && s[k] == ' ') {
                    None
                } else {
                    match spec_parse_subcmd(s, k + 1) {
                        None => None,
                        Some(sc) => Some(MsgCapModel { nick, sub_command: sc }),
                    }
                }
            },
        }
    }
}

/// The subcommand of a capability message, through the end of the line.
pub open spec fn spec_parse_subcmd(s: Seq<char>, k: int) -> Option<SubCommandModel> {
    let se = token_end(s, k, letter_pred());
    let name = s.subrange(k, se);
    if name == seq!['L', 'S'] || name == seq!['L', 'I', 'S', 'T'] {
        if !(se < s.len() && s[se] == ' ') {
            None
        } else {
            let multi = se + 1 < s.len() && s[se + 1] == '*';
            let m = if multi {
                se + 2
            } else {
                se + 1
            };
            if multi && !(m < s.len() && s[m] == ' ') {
                None
            } else {
                let c = if multi {
                    m + 1
                } else {
                    m
                };
                if !(c < s.len() && s[c] == ':') {
                    None
                } else {
                    match spec_parse_caps(s, c + 1, Seq::empty()) {
                        None => None,
                        Some(caps) => {
                            if name == seq!['L', 'S'] {
                                Some(SubCommandModel::LS(multi, caps))
                            } else {
                                Some(SubCommandModel::LIST(multi, caps))
                            }
                        },
                    }
                }
            }
        }
    } else if name == seq!['R', 'E', 'Q'] || name == seq!['A', 'C', 'K'] || name == seq![
        'N',
        'A',
        'K',
    ] || name == seq!['N', 'E', 'W'] || name == seq!['D', 'E', 'L'] {
        if !(se + 2 <= s.len() && s[se] == ' ' && s[se + 1] == ':') {
            None
        } else {
            match spec_parse_caps(s, se + 2, Seq::empty()) {
                None => None,
                Some(caps) => {
                    if name == seq!['R', 'E', 'Q'] {
                        Some(SubCommandModel::REQ(caps))
                    } else if name == seq!['A', 'C', 'K'] {
                        Some(SubCommandModel::ACK(caps))
                    } else if name == seq!['N', 'A', 'K'] {
                        Some(SubCommandModel::NAK(caps))
                    } else if name == seq!['N', 'E', 'W'] {
                        Some(SubCommandModel::NEW(caps))
                    } else {
                        Some(SubCommandModel::DEL(caps))
                    }
                },
            }
        }
    } else {
        None
    }
}

/// The body of a line: a capability message where the text is one, else a
/// generic command.
pub open spec fn spec_parse_msg_type(s: Seq<char>, i: int) -> Option<MessageTypeModel> {
    match spec_parse_msg_cap(s, i) {
        Some(mc) => Some(MessageTypeModel::Capability(mc)),
        None => match spec_parse_generic(s, i) {
            Some(g) => Some(MessageTypeModel::Generic(g)),
            None => None,
        },
    }
}

/// A whole line.
pub open spec fn spec_parse_message(s: Seq<char>) -> Option<MessageModel> {
    match spec_parse_tags_part(s) {
        None => None,
        Some((tags, i1)) => match spec_parse_source_part(s, i1) {
            None => None,
            Some((source, i2)) => match spec_parse_msg_type(s, i2) {
                None => None,
                Some(mt) => Some(MessageModel { tags, source, msg_type: mt }),
            },
        },
    }
}

// ---------------------------------------------------------------------------
// The executable parser.
// ---------------------------------------------------------------------------

/// The grammar rule at which parsing failed.
#[derive(Debug, Clone, PartialEq)]
pub enum ParseRule {
    Tag,
    Tags,
    Source,
    Command,
    Parameter,
    CapMessage,
    Capability,
    Body,
}

/// A structured parse error: the failing rule and the character position.
#[derive(Debug, Clone, PartialEq)]
pub struct ParseError {
    pub rule: ParseRule,
    pub pos: usize,
}

fn parse_tag(s: &str, i: usize) -> (r: Result<(Tag, usize), ParseError>)
    requires
        i as int <= s@.len(),
    ensures
        match r {
            Ok((t, j)) => spec_parse_tag(s@, i as int) == Some((t@, j as int)) && i < j && j as int
                <= s@.len(),
            Err(_) => spec_parse_tag(s@, i as int) is None,
        },
{
    let ke = crate::text::scan(s, i, &crate::text::key_char, Ghost(key_pred()));
    if ke == i {
        return Err(ParseError { rule: ParseRule::Tag, pos: i });
    }
    let key = s.substring_char(i, ke).to_owned();
    let n = s.unicode_len();
    if ke < n && s.get_char(ke) == '=' {
        let ve = crate::text::scan(s, ke + 1, &crate::text::tag_value_char, Ghost(tag_value_pred()));
        let value = crate::text::unescape_range(s, ke + 1, ve);
        let t = Tag { key, value: Some(value) };
        proof {
            assert(t@ == TagModel {
                key: s@.subrange(i as int, ke as int),
                value: Some(spec_unescape(s@.subrange(ke as int + 1, ve as int))),
            });
        }
        Ok((t, ve))
    } else {
        let t = Tag { key, value: None };
        proof {
            assert(t@ == TagModel { key: s@.subrange(i as int, ke as int), value: None });
        }
        Ok((t, ke))
    }
}

/// Parses a `;`-separated tag list beginning at `i`, up to the first
/// character that does not continue it.
pub fn parse_tag_list(s: &str, i: usize) -> (r: Result<(Vec<Tag>, usize), ParseError>)
    requires
        i as int <= s@.len(),
    ensures
        match r {
            Ok((tags, j)) => {
                &&& spec_parse_tag_list(s@, i as int, Seq::empty()) == Some(
                    (tags.deep_view(), j as int),
                )
                &&& tags_wf(tags.deep_view())
                &&& j as int <= s@.len()
            },
            Err(_) => spec_parse_tag_list(s@, i as int, Seq::empty()) is None,
        },
{
    let mut tags: Vec<Tag> = Vec::new();
    let mut cur = i;
    let n = s.unicode_len();
    proof {
        assert(tags.deep_view() =~= Seq::<TagModel>::empty());
    }
    loop
        invariant
            i <= cur <= n,
            n == s@.len(),
            tags_wf(tags.deep_view()),
            spec_parse_tag_list(s@, i as int, Seq::empty()) == spec_parse_tag_list(
                s@,
                cur as int,
                tags.deep_view(),
            ),
        decreases n - cur,
    {
        let ghost acc0 = tags.deep_view();
        match parse_tag(s, cur) {
            Err(e) => {
                return Err(e);
            },
            Ok((t, j)) => {
                let ghost tv = t@;
                tags = crate::message::insert_tag(tags, t);
                proof {
                    assert(tags.deep_view() == spec_tag_insert(acc0, tv));
                }
                if j < n && s.get_char(j) == ';' {
                    cur = j + 1;
                } else {
                    return Ok((tags, j));
                }
            },
        }
    }
}

fn parse_source_part(s: &str, i: usize) -> (r: Result<(Option<Source>, usize), ParseError>)
    requires
        i as int <= s@.len(),
    ensures
        match r {
            Ok((src, j)) => spec_parse_source_part(s@, i as int) == Some(
                (src.deep_view(), j as int),
            ) && i <= j && j as int <= s@.len(),
            Err(_) => spec_parse_source_part(s@, i as int) is None,
        },
{
    let n = s.unicode_len();
    if i >= n || s.get_char(i) != ':' {
        return Ok((None, i));
    }
    let ne = crate::text::scan(s, i + 1, &crate::text::name_char, Ghost(name_pred()));
    if ne == i + 1 {
        return Err(ParseError { rule: ParseRule::Source, pos: i });
    }
    let name = s.substring_char(i + 1, ne).to_owned();
    let (user, j): (Option<String>, usize) = if ne < n && s.get_char(ne) == '!' {
        let ue = crate::text::scan(s, ne + 1, &crate::text::user_char, Ghost(user_pred()));
        if ue == ne + 1 {
            return Err(ParseError { rule: ParseRule::Source, pos: ne });
        }
        (Some(s.substring_char(ne + 1, ue).to_owned()), ue)
    } else {
        (None, ne)
    };
    let (host, k): (Option<String>, usize) = if j < n && s.get_char(j) == '@' {
        let he = crate::text::scan(s, j + 1, &crate::text::nospcrlf_char, Ghost(nospcrlf_pred()));
        if he == j + 1 {
            return Err(ParseError { rule: ParseRule::Source, pos: j });
        }
        (Some(s.substring_char(j + 1, he).to_owned()), he)
    } else {
        (None, j)
    };
    if k < n && s.get_char(k) == ' ' {
        let src = if user.is_none() && host.is_none() {
            Source::Host(name)
        } else {
            Source::User(User { nick: name, user, host })
        };
        Ok((Some(src), k + 1))
    } else {
        Err(ParseError { rule: ParseRule::Source, pos: k })
    }
}

fn parse_command(s: &str, i: usize) -> (r: Result<(Command, usize), ParseError>)
    requires
        i as int <= s@.len(),
    ensures
        match r {
            Ok((c, j)) => spec_parse_command(s@, i as int) == Some((c@, j as int)) && i < j
                && j as int <= s@.len(),
            Err(_) => spec_parse_command(s@, i as int) is None,
        },
{
    let n = s.unicode_len();
    if i < n && crate::text::digit_char(s.get_char(i)) {
        if n - i >= 3 && crate::text::digit_char(s.get_char(i + 1)) && crate::text::digit_char(
            s.get_char(i + 2),
        ) {
            let d0 = crate::text::digit_val(s.get_char(i));
            let d1 = crate::text::digit_val(s.get_char(i + 1));
            let d2 = crate::text::digit_val(s.get_char(i + 2));
            Ok((Command::Digit3(100 * d0 + 10 * d1 + d2), i + 3))
        } else {
            Err(ParseError { rule: ParseRule::Command, pos: i })
        }
    } else {
        let le = crate::text::scan(s, i, &crate::text::letter_char, Ghost(letter_pred()));
        if le == i {
            Err(ParseError { rule: ParseRule::Command, pos: i })
        } else {
            Ok((Command::Cmd(s.substring_char(i, le).to_owned()), le))
        }
    }
}

/// One middle parameter: a non-empty run of characters without spaces that
/// does not open with a colon.
pub fn parse_middle(s: &str, i: usize) -> (r: Result<(String, usize), ParseError>)
    requires
        i as int <= s@.len(),
    ensures
        match r {
            Ok((m, j)) => {
                &&& i < j
                &&& j as int <= s@.len()
                &&& j == token_end(s@, i as int, nospcrlf_pred())
                &&& m@ == s@.subrange(i as int, j as int)
                &&& s@[i as int] != ':'
            },
            Err(_) => i as int >= s@.len() || s@[i as int] == ':' || token_end(
                s@,
                i as int,
                nospcrlf_pred(),
            ) == i,
        },
{
    let n = s.unicode_len();
    if i >= n || s.get_char(i) == ':' {
        return Err(ParseError { rule: ParseRule::Parameter, pos: i });
    }
    let me = crate::text::scan(s, i, &crate::text::nospcrlf_char, Ghost(nospcrlf_pred()));
    if me == i {
        return Err(ParseError { rule: ParseRule::Parameter, pos: i });
    }
    Ok((s.substring_char(i, me).to_owned(), me))
}

/// The trailing parameter: a colon, then any text free of line breaks; it
/// runs as far as such text reaches.
pub fn parse_trailing(s: &str, i: usize) -> (r: Result<(String, usize), ParseError>)
    requires
        i as int <= s@.len(),
    ensures
        match r {
            Ok((t, j)) => {
                &&& i < j
                &&& j as int <= s@.len()
                &&& (i as int) < s@.len() && s@[i as int] == ':'
                &&& j == token_end(s@, i as int + 1, nocrlf_pred())
                &&& t@ == s@.subrange(i as int + 1, j as int)
            },
            Err(_) => i as int >= s@.len() || s@[i as int] != ':',
        },
{
    let n = s.unicode_len();
    if i >= n || s.get_char(i) != ':' {
        return Err(ParseError { rule: ParseRule::Parameter, pos: i });
    }
    let te = crate::text::scan(s, i + 1, &crate::text::nocrlf_char, Ghost(nocrlf_pred()));
    Ok((s.substring_char(i + 1, te).to_owned(), te))
}

fn parse_params(s: &str, j: usize) -> (r: Result<Vec<String>, ParseError>)
    requires
        j as int <= s@.len(),
    ensures
        match r {
            Ok(ps) => spec_parse_params(s@, j as int, Seq::empty()) == Some(ps.deep_view()),
            Err(_) => spec_parse_params(s@, j as int, Seq::empty()) is None,
        },
{
    let mut ps: Vec<String> = Vec::new();
    let mut cur = j;
    let n = s.unicode_len();
    proof {
        assert(ps.deep_view() =~= Seq::<Seq<char>>::empty());
    }
    loop
        invariant
            j <= cur <= n,
            n == s@.len(),
            spec_parse_params(s@, j as int, Seq::empty()) == spec_parse_params(
                s@,
                cur as int,
                ps.deep_view(),
            ),
        decreases n - cur,
    {
        if cur >= n {
            return Ok(ps);
        }
        if s.get_char(cur) != ' ' {
            return Err(ParseError { rule: ParseRule::Parameter, pos: cur });
        }
        if cur + 1 < n && s.get_char(cur + 1) == ':' {
            let (t, te) = match parse_trailing(s, cur + 1) {
                Ok(x) => x,
                Err(_) => unreached(),
            };
            if te == n {
                let ghost dv0 = ps.deep_view();
                ps.push(t);
                proof {
                    assert(ps.deep_view() =~= dv0.push(s@.subrange(cur as int + 2, s@.len() as int)));
                }
                return Ok(ps);
            } else {
                return Err(ParseError { rule: ParseRule::Parameter, pos: te });
            }
        }
        let (m, me) = match parse_middle(s, cur + 1) {
            Ok(x) => x,
            Err(e) => {
                return Err(e);
            },
        };
        let ghost dv0 = ps.deep_view();
        ps.push(m);
        proof {
            assert(ps.deep_view() =~= dv0.push(s@.subrange(cur as int + 1, me as int)));
        }
        cur = me;
    }
}

fn parse_generic(s: &str, i: usize) -> (r: Result<GenericMessage, ParseError>)
    requires
        i as int <= s@.len(),
    ensures
        match r {
            Ok(g) => spec_parse_generic(s@, i as int) == Some(g@) && crate::generic_message::generic_wf(g@),
            Err(_) => spec_parse_generic(s@, i as int) is None,
        },
{
    let (command, j) = match parse_command(s, i) {
        Ok(cj) => cj,
        Err(e) => {
            return Err(e);
        },
    };
    let parameters = match parse_params(s, j) {
        Ok(ps) => ps,
        Err(e) => {
            return Err(e);
        },
    };
    Ok(GenericMessage { command, parameters })
}

impl GenericMessage {
    /// Parses a whole line as a bare generic message, without tags or a
    /// source prefix.
    pub fn parse(s: &str) -> (r: Result<GenericMessage, ParseError>)
        ensures
            match r {
                Ok(g) => spec_parse_generic(s@, 0) == Some(g@),
                Err(_) => spec_parse_generic(s@, 0) is None,
            },
    {
        parse_generic(s, 0)
    }
}

fn parse_cap_values(s: &str, v: usize) -> (r: Result<(Vec<String>, usize), ParseError>)
    requires
        v as int <= s@.len(),
    ensures
        match r {
            Ok((vals, q)) => spec_parse_cap_values(s@, v as int, Seq::empty()) == Some(
                (vals.deep_view(), q as int),
            ) && v < q && q as int <= s@.len(),
            Err(_) => spec_parse_cap_values(s@, v as int, Seq::empty()) is None,
        },
{
    let mut vals: Vec<String> = Vec::new();
    let mut cur = v;
    let n = s.unicode_len();
    proof {
        assert(vals.deep_view() =~= Seq::<Seq<char>>::empty());
    }
    loop
        invariant
            v <= cur <= n,
            n == s@.len(),
            spec_parse_cap_values(s@, v as int, Seq::empty()) == spec_parse_cap_values(
                s@,
                cur as int,
                vals.deep_view(),
            ),
        decreases n - cur,
    {
        let ve = crate::text::scan(s, cur, &crate::text::cap_value_char, Ghost(cap_value_pred()));
        if ve == cur {
            return Err(ParseError { rule: ParseRule::Capability, pos: cur });
        }
        let ghost dv0 = vals.deep_view();
        vals.push(s.substring_char(cur, ve).to_owned());
        proof {
            assert(vals.deep_view() =~= dv0.push(s@.subrange(cur as int, ve as int)));
        }
        if ve < n && s.get_char(ve) == ',' {
            cur = ve + 1;
        } else {
            return Ok((vals, ve));
        }
    }
}

fn parse_capability(s: &str, p: usize) -> (r: Result<(Capability, usize), ParseError>)
    requires
        p as int <= s@.len(),
    ensures
        match r {
            Ok((cap, q)) => spec_parse_capability(s@, p as int) == Some((cap@, q as int)) && p < q
                && q as int <= s@.len(),
            Err(_) => spec_parse_capability(s@, p as int) is None,
        },
{
    let n = s.unicode_len();
    let disabled = p < n && s.get_char(p) == '-';
    let p1 = if disabled {
        p + 1
    } else {
        p
    };
    let ke = crate::text::scan(s, p1, &crate::text::cap_key_char, Ghost(cap_key_pred()));
    if ke == p1 {
        return Err(ParseError { rule: ParseRule::Capability, pos: p });
    }
    let key = s.substring_char(p1, ke).to_owned();
    if ke < n && s.get_char(ke) == '=' {
        match parse_cap_values(s, ke + 1) {
            Err(e) => Err(e),
            Ok((vals, q)) => {
                let cap = if disabled {
                    Capability::Disabled(key)
                } else {
                    Capability::Values(key, vals)
                };
                Ok((cap, q))
            },
        }
    } else {
        let cap = if disabled {
            Capability::Disabled(key)
        } else {
            Capability::Single(key)
        };
        Ok((cap, ke))
    }
}

fn parse_caps(s: &str, p: usize) -> (r: Result<Vec<Capability>, ParseError>)
    requires
        p as int <= s@.len(),
    ensures
        match r {
            Ok(caps) => spec_parse_caps(s@, p as int, Seq::empty()) == Some(caps.deep_view()),
            Err(_) => spec_parse_caps(s@, p as int, Seq::empty()) is None,
        },
{
    let mut caps: Vec<Capability> = Vec::new();
    let mut cur = p;
    let n = s.unicode_len();
    proof {
        assert(caps.deep_view() =~= Seq::<CapabilityModel>::empty());
    }
    loop
        invariant
            p <= cur <= n,
            n == s@.len(),
            spec_parse_caps(s@, p as int, Seq::empty()) == spec_parse_caps(
                s@,
                cur as int,
                caps.deep_view(),
            ),
        decreases n - cur,
    {
        if cur >= n {
            return Ok(caps);
        }
        match parse_capability(s, cur) {
            Err(e) => {
                return Err(e);
            },
            Ok((cap, q)) => {
                let ghost dv0 = caps.deep_view();
                let ghost capv = cap@;
                caps.push(cap);
                proof {
                    assert(caps.deep_view() =~= dv0.push(capv));
                }
                if q >= n {
                    return Ok(caps);
                } else if s.get_char(q) == ' ' {
                    cur = q + 1;
                } else {
                    return Err(ParseError { rule: ParseRule::Capability, pos: q });
                }
            },
        }
    }
}

fn parse_subcmd(s: &str, k: usize) -> (r: Result<SubCommand, ParseError>)
    requires
        k as int <= s@.len(),
    ensures
        match r {
            Ok(sc) => spec_parse_subcmd(s@, k as int) == Some(sc@),
            Err(_) => spec_parse_subcmd(s@, k as int) is None,
        },
{
    proof {
        reveal_strlit("LS");
        reveal_strlit("LIST");
        reveal_strlit("REQ");
        reveal_strlit("ACK");
        reveal_strlit("NAK");
        reveal_strlit("NEW");
        reveal_strlit("DEL");
        assert("LS"@ =~= seq!['L', 'S']);
        assert("LIST"@ =~= seq!['L', 'I', 'S', 'T']);
        assert("REQ"@ =~= seq!['R', 'E', 'Q']);
        assert("ACK"@ =~= seq!['A', 'C', 'K']);
        assert("NAK"@ =~= seq!['N', 'A', 'K']);
        assert("NEW"@ =~= seq!['N', 'E', 'W']);
        assert("DEL"@ =~= seq!['D', 'E', 'L']);
    }
    let n = s.unicode_len();
    let se = crate::text::scan(s, k, &crate::text::letter_char, Ghost(letter_pred()));
    let name = s.substring_char(k, se);
    let is_ls = crate::text::str_compare(name, "LS") == 0;
    let is_list = crate::text::str_compare(name, "LIST") == 0;
    if is_ls || is_list {
        if !(se < n && s.get_char(se) == ' ') {
            return Err(ParseError { rule: ParseRule::CapMessage, pos: se });
        }
        let multi = se + 1 < n && s.get_char(se + 1) == '*';
        let m = if multi {
            se + 2
        } else {
            se + 1
        };
        if multi && !(m < n && s.get_char(m) == ' ') {
            return Err(ParseError { rule: ParseRule::CapMessage, pos: m });
        }
        let c = if multi {
            m + 1
        } else {
            m
        };
        if !(c < n && s.get_char(c) == ':') {
            return Err(ParseError { rule: ParseRule::CapMessage, pos: c });
        }
        match parse_caps(s, c + 1) {
            Err(e) => Err(e),
            Ok(caps) => {
                if is_ls {
                    Ok(SubCommand::LS(multi, caps))
                } else {
                    Ok(SubCommand::LIST(multi, caps))
                }
            },
        }
    } else {
        let is_req = crate::text::str_compare(name, "REQ") == 0;
        let is_ack = crate::text::str_compare(name, "ACK") == 0;
        let is_nak = crate::text::str_compare(name, "NAK") == 0;
        let is_new = crate::text::str_compare(name, "NEW") == 0;
        let is_del = crate::text::str_compare(name, "DEL") == 0;
        if !(is_req || is_ack || is_nak || is_new || is_del) {
            return Err(ParseError { rule: ParseRule::CapMessage, pos: k });
        }
        if !(n - se >= 2 && s.get_char(se) == ' ' && s.get_char(se + 1) == ':') {
            return Err(ParseError { rule: ParseRule::CapMessage, pos: se });
        }
        match parse_caps(s, se + 2) {
            Err(e) => Err(e),
            Ok(caps) => {
                if is_req {
                    Ok(SubCommand::REQ(caps))
                } else if is_ack {
                    Ok(SubCommand::ACK(caps))
                } else if is_nak {
                    Ok(SubCommand::NAK(caps))
                } else if is_new {
                    Ok(SubCommand::NEW(caps))
                } else {
                    Ok(SubCommand::DEL(caps))
                }
            },
        }
    }
}

fn parse_msg_cap(s: &str, i: usize) -> (r: Result<MsgCap, ParseError>)
    requires
        i as int <= s@.len(),
    ensures
        match r {
            Ok(mc) => spec_parse_msg_cap(s@, i as int) == Some(mc@),
            Err(_) => spec_parse_msg_cap(s@, i as int) is None,
        },
{
    let n = s.unicode_len();
    if !(n - i >= 4 && s.get_char(i) == 'C' && s.get_char(i + 1) == 'A' && s.get_char(i + 2) == 'P'
        && s.get_char(i + 3) == ' ') {
        return Err(ParseError { rule: ParseRule::CapMessage, pos: i });
    }
    let j = i + 4;
    let (nick, k): (CapNick, usize) = if j < n && s.get_char(j) == '*' {
        (CapNick::Star, j + 1)
    } else {
        let ne = crate::text::scan(s, j, &crate::text::nospcrlf_char, Ghost(nospcrlf_pred()));
        if ne == j {
            return Err(ParseError { rule: ParseRule::CapMessage, pos: j });
        }
        (CapNick::Nick(s.substring_char(j, ne).to_owned()), ne)
    };
    if !(k < n && s.get_char(k) == ' ') {
        return Err(ParseError { rule: ParseRule::CapMessage, pos: k });
    }
    match parse_subcmd(s, k + 1) {
        Err(e) => Err(e),
        Ok(sc) => Ok(MsgCap { nick, sub_command: sc }),
    }
}

impl MsgCap {
    /// Parses a whole line as a capability message.
    pub fn parse(s: &str) -> (r: Result<MsgCap, ParseError>)
        ensures
            match r {
                Ok(mc) => spec_parse_msg_cap(s@, 0) == Some(mc@),
                Err(_) => spec_parse_msg_cap(s@, 0) is None,
            },
    {
        parse_msg_cap(s, 0)
    }
}

fn parse_msg_type(s: &str, i: usize) -> (r: Result<MessageType, ParseError>)
    requires
        i as int <= s@.len(),
    ensures
        match r {
            Ok(mt) => spec_parse_msg_type(s@, i as int) == Some(mt@) && crate::message::msg_type_wf(
                mt@,
            ),
            Err(_) => spec_parse_msg_type(s@, i as int) is None,
        },
{
    match parse_msg_cap(s, i) {
        Ok(mc) => Ok(MessageType::Capability(mc)),
        Err(_) => match parse_generic(s, i) {
            Ok(g) => Ok(MessageType::Generic(g)),
            Err(e) => Err(e),
        },
    }
}

impl Message {
    /// Parses one line into a message; the result is exactly what the
    /// grammar yields, with sorted tags and an in-range numeric command.
    pub fn parse(s: &str) -> (r: Result<Message, ParseError>)
        ensures
            match r {
                Ok(m) => spec_parse_message(s@) == Some(m@) && crate::message::message_wf(m@),
                Err(_) => spec_parse_message(s@) is None,
            },
    {
        let n = s.unicode_len();
        let (tags, i1): (Vec<Tag>, usize) = if n > 0 && s.get_char(0) == '@' {
            match parse_tag_list(s, 1) {
                Err(e) => {
                    return Err(e);
                },
                Ok((tags, j)) => {
                    if j < n && s.get_char(j) == ' ' {
                        (tags, j + 1)
                    } else {
                        return Err(ParseError { rule: ParseRule::Tags, pos: j });
                    }
                },
            }
        } else {
            let tags: Vec<Tag> = Vec::new();
            proof {
                assert(tags.deep_view() =~= Seq::<TagModel>::empty());
            }
            (tags, 0)
        };
        let (source, i2) = match parse_source_part(s, i1) {
            Err(e) => {
                return Err(e);
            },
            Ok(sj) => sj,
        };
        match parse_msg_type(s, i2) {
            Err(e) => Err(e),
            Ok(msg_type) => Ok(Message { tags, source, msg_type }),
        }
    }
}

} // verus!
