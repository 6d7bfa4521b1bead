//! The round-trip law: a message built from plain parts serializes to a line
//! that parses back to the very same message, so serializing again
//! reproduces the wire text.
//!
//! The law cannot hold of every message: an empty trailing parameter is
//! dropped by the serializer on purpose, unescaped tag values are not
//! re-escaped, and the `CAP` command owns a sub-grammar of its own.
//! `round_trippable` states the plain-parts boundary exactly.

use vstd::prelude::*;

use crate::generic_message::{
    spec_command_text, spec_generic_text, spec_params_text, CommandModel, GenericMessageModel,
};
use crate::message::{
    spec_message_text, spec_source_part, spec_source_text, spec_tag_insert, spec_tag_text,
    spec_tags_part, tags_wf, MessageModel, MessageTypeModel, SourceModel, TagModel,
};
use crate::parser::{
    spec_parse_command, spec_parse_generic, spec_parse_message, spec_parse_msg_cap,
    spec_parse_msg_type, spec_parse_params, spec_parse_source_part, spec_parse_tag,
    spec_parse_tag_list, spec_parse_tags_part,
};
use crate::text::{
    char_digit_val, digit_to_char, is_digit, is_key_char, is_letter, is_nocrlf, is_nospcrlf,
    is_tag_value_char, key_pred, lemma_seq_lt_asym, lemma_token_end_step,
    letter_pred, name_pred, nocrlf_pred, nospcrlf_pred, seq_lt, spec_digit3, spec_join,
    spec_unescape, tag_value_pred, token_end, user_pred,
};

verus! {

/// Every character of `s` satisfies `pred`.
pub open spec fn all_chars(s: Seq<char>, pred: spec_fn(char) -> bool) -> bool {
    forall|k: int| 0 <= k < s.len() ==> pred(#[trigger] s[k])
}

/// Unescaping text that holds no backslash gives the text back.
proof fn lemma_unescape_id(v: Seq<char>)
    requires
        !v.contains('\\'),
    ensures
        spec_unescape(v) == v,
    decreases v.len(),
{
    if v.len() == 0 {
        assert(spec_unescape(v) =~= v);
    } else {
        assert(v[0] != '\\');
        assert(!v.skip(1).contains('\\')) by {
            if v.skip(1).contains('\\') {
                let k = choose|k: int| 0 <= k < v.skip(1).len() && v.skip(1)[k] == '\\';
                assert(v[k + 1] == '\\');
            }
        }
        lemma_unescape_id(v.skip(1));
        assert(seq![v[0]] + v.skip(1) =~= v);
    }
}

/// A maximal run that is delimited on both sides ends exactly at the
/// delimiter.
proof fn lemma_token_run(s: Seq<char>, i: int, j: int, pred: spec_fn(char) -> bool)
    requires
        0 <= i <= j <= s.len(),
        forall|k: int| i <= k < j ==> pred(#[trigger] s[k]),
        j == s.len() || !pred(s[j]),
    ensures
        token_end(s, i, pred) == j,
{
    lemma_token_end_step(s, i, j, pred);
}

/// The decimal digits of a three-digit rendering read back as the value.
proof fn lemma_digit3_round(v: int)
    requires
        0 <= v <= 999,
    ensures
        forall|k: int| 0 <= k < 3 ==> is_digit(#[trigger] spec_digit3(v)[k]),
        100 * char_digit_val(spec_digit3(v)[0]) + 10 * char_digit_val(spec_digit3(v)[1])
            + char_digit_val(spec_digit3(v)[2]) == v,
{
    let d0 = v / 100;
    let d1 = (v / 10) % 10;
    let d2 = v % 10;
    assert(0 <= d0 <= 9 && 0 <= d1 <= 9 && 0 <= d2 <= 9);
    assert(char_digit_val(digit_to_char(d0)) == d0);
    assert(char_digit_val(digit_to_char(d1)) == d1);
    assert(char_digit_val(digit_to_char(d2)) == d2);
    assert(is_digit(digit_to_char(d0)) && is_digit(digit_to_char(d1)) && is_digit(
        digit_to_char(d2),
    ));
    assert(100 * d0 + 10 * d1 + d2 == v);
}

/// A tag that survives the wire: a non-empty key of key characters, and a
/// value without separators or escapes.
pub open spec fn plain_tag(t: TagModel) -> bool {
    &&& t.key.len() > 0
    &&& all_chars(t.key, key_pred())
    &&& match t.value {
        Some(v) => all_chars(v, tag_value_pred()) && !v.contains('\\'),
        None => true,
    }
}

/// Inserting a tag whose key is above every present key appends it.
proof fn lemma_tag_insert_append(acc: Seq<TagModel>, t: TagModel)
    requires
        forall|k: int| 0 <= k < acc.len() ==> seq_lt((#[trigger] acc[k]).key, t.key),
    ensures
        spec_tag_insert(acc, t) == acc.push(t),
    decreases acc.len(),
{
    if acc.len() == 0 {
        assert(spec_tag_insert(acc, t) =~= acc.push(t));
    } else {
        lemma_seq_lt_asym(acc[0].key, t.key);
        let rest = acc.drop_first();
        assert forall|k: int| 0 <= k < rest.len() implies seq_lt((#[trigger] rest[k]).key, t.key) by {
            assert(rest[k] == acc[k + 1]);
        }
        lemma_tag_insert_append(rest, t);
        assert(seq![acc[0]] + rest.push(t) =~= acc.push(t));
    }
}

/// One plain tag, delimited by `;` or a space, parses back to itself.
proof fn lemma_tag_round(s: Seq<char>, i: int, t: TagModel)
    requires
        plain_tag(t),
        0 <= i,
        i + spec_tag_text(t).len() < s.len(),
        s.subrange(i, i + spec_tag_text(t).len()) == spec_tag_text(t),
        s[i + spec_tag_text(t).len()] == ';' || s[i + spec_tag_text(t).len()] == ' ',
    ensures
        spec_parse_tag(s, i) == Some((t, i + spec_tag_text(t).len())),
{
    let text = spec_tag_text(t);
    let e = i + text.len();
    assert forall|k: int| 0 <= k < text.len() implies s[i + k] == text[k] by {
        assert(s.subrange(i, e)[k] == s[i + k]);
    }
    let kl = t.key.len() as int;
    assert forall|k: int| i <= k < i + kl implies is_key_char(#[trigger] s[k]) by {
        assert(text[k - i] == t.key[k - i]);
    }
    match t.value {
        Some(v) => {
            assert(text[kl] == '=');
            assert(s[i + kl] == '=');
            assert(!is_key_char('='));
            lemma_token_run(s, i, i + kl, key_pred());
            assert(s.subrange(i, i + kl) =~= t.key);
            assert forall|k: int| i + kl + 1 <= k < e implies is_tag_value_char(#[trigger] s[k]) by {
                assert(text[k - i] == v[k - i - kl - 1]);
            }
            assert(!is_tag_value_char(';') && !is_tag_value_char(' '));
            lemma_token_run(s, i + kl + 1, e, tag_value_pred());
            assert forall|q: int| 0 <= q < v.len() implies s.subrange(i + kl + 1, e)[q] == v[q] by {
                assert(s[i + kl + 1 + q] == text[kl + 1 + q]);
                assert(text[kl + 1 + q] == v[q]);
            }
            assert(s.subrange(i + kl + 1, e) =~= v);
            lemma_unescape_id(v);
        },
        None => {
            assert(e == i + kl);
            assert(!is_key_char(';') && !is_key_char(' '));
            lemma_token_run(s, i, e, key_pred());
            assert(s.subrange(i, e) =~= t.key);
            assert(s[e] != '=');
        },
    }
}

/// A `;`-joined run of plain, strictly ascending tags, closed by a space,
/// parses back to exactly those tags.
proof fn lemma_tag_list_round(s: Seq<char>, tags: Seq<TagModel>, k: int, i: int, e: int)
    requires
        tags_wf(tags),
        forall|q: int| 0 <= q < tags.len() ==> plain_tag(#[trigger] tags[q]),
        0 <= k < tags.len(),
        0 <= i <= e < s.len(),
        s.subrange(i, e) == spec_join(
            tags.skip(k).map_values(|t: TagModel| spec_tag_text(t)),
            seq![';'],
        ),
        s[e] == ' ',
    ensures
        spec_parse_tag_list(s, i, tags.take(k)) == Some((tags, e)),
    decreases tags.len() - k,
{
    let texts = tags.skip(k).map_values(|t: TagModel| spec_tag_text(t));
    let tt = spec_tag_text(tags[k]);
    assert(texts[0] == tt);
    assert(tt.len() >= tags[k].key.len() > 0);
    assert forall|q: int| 0 <= q < (e - i) implies s[i + q] == spec_join(texts, seq![';'])[q] by {
        assert(s.subrange(i, e)[q] == s[i + q]);
    }
    if k == tags.len() - 1 {
        assert(texts.len() == 1);
        assert(spec_join(texts, seq![';']) == tt);
        assert(e == i + tt.len());
        assert(s.subrange(i, e) == tt);
        lemma_tag_round(s, i, tags[k]);
        assert forall|q: int| 0 <= q < tags.take(k).len() implies seq_lt(
            (#[trigger] tags.take(k)[q]).key,
            tags[k].key,
        ) by {
            assert(tags.take(k)[q] == tags[q]);
        }
        lemma_tag_insert_append(tags.take(k), tags[k]);
        assert(tags.take(k).push(tags[k]) =~= tags);
        assert(s[e] != ';');
    } else {
        let rest_texts = tags.skip(k + 1).map_values(|t: TagModel| spec_tag_text(t));
        assert(texts.len() >= 2);
        assert(texts.drop_first() =~= rest_texts);
        assert(spec_join(texts, seq![';']) == tt + seq![';'] + spec_join(rest_texts, seq![';']));
        let j = i + tt.len();
        assert(s.subrange(i, j) =~= tt) by {
            assert forall|q: int| 0 <= q < tt.len() implies s.subrange(i, j)[q] == tt[q] by {
                assert(s[i + q] == spec_join(texts, seq![';'])[q]);
                assert(spec_join(texts, seq![';'])[q] == tt[q]);
            }
        }
        assert(s[j] == ';') by {
            assert(spec_join(texts, seq![';'])[tt.len() as int] == ';');
        }
        lemma_tag_round(s, i, tags[k]);
        assert forall|q: int| 0 <= q < tags.take(k).len() implies seq_lt(
            (#[trigger] tags.take(k)[q]).key,
            tags[k].key,
        ) by {
            assert(tags.take(k)[q] == tags[q]);
        }
        lemma_tag_insert_append(tags.take(k), tags[k]);
        assert(tags.take(k).push(tags[k]) =~= tags.take(k + 1));
        assert(s.subrange(j + 1, e) =~= spec_join(rest_texts, seq![';'])) by {
            assert forall|q: int| 0 <= q < (e - j - 1) implies s.subrange(j + 1, e)[q] == spec_join(
                rest_texts,
                seq![';'],
            )[q] by {
                assert(s[j + 1 + q] == spec_join(texts, seq![';'])[tt.len() + 1 + q]);
                assert(spec_join(texts, seq![';'])[tt.len() + 1 + q] == spec_join(
                    rest_texts,
                    seq![';'],
                )[q]);
            }
        }
        lemma_tag_list_round(s, tags, k + 1, j + 1, e);
    }
}

/// A command that survives the wire: an in-range numeric, or a word of
/// letters other than `CAP`, whose sub-grammar is its own.
pub open spec fn plain_command(c: CommandModel) -> bool {
    match c {
        CommandModel::Digit3(v) => 0 <= v <= 999,
        CommandModel::Cmd(name) => name.len() > 0 && all_chars(name, letter_pred()) && name
            != seq!['C', 'A', 'P'],
    }
}

/// Parameters that survive the wire: non-empty middles without spaces or
/// colons, and a non-empty trailing without line breaks that only opens with
/// a colon when it also holds a space.
pub open spec fn plain_params(ps: Seq<Seq<char>>) -> bool {
    &&& forall|k: int|
        0 <= k < ps.len() - 1 ==> {
            let p = #[trigger] ps[k];
            p.len() > 0 && all_chars(p, nospcrlf_pred()) && !p.contains(':')
        }
    &&& ps.len() > 0 ==> {
        let t = ps.last();
        t.len() > 0 && all_chars(t, nocrlf_pred()) && (t[0] == ':' ==> t.contains(' '))
    }
}

/// A serialized command, delimited by a space or the end of the line, parses
/// back to itself.
proof fn lemma_command_round(s: Seq<char>, c: CommandModel, i: int)
    requires
        plain_command(c),
        0 <= i,
        i + spec_command_text(c).len() <= s.len(),
        s.subrange(i, i + spec_command_text(c).len()) == spec_command_text(c),
        i + spec_command_text(c).len() < s.len() ==> s[i + spec_command_text(c).len()] == ' ',
    ensures
        spec_parse_command(s, i) == Some((c, i + spec_command_text(c).len())),
{
    let text = spec_command_text(c);
    let e = i + text.len();
    assert forall|k: int| 0 <= k < text.len() implies s[i + k] == text[k] by {
        assert(s.subrange(i, e)[k] == s[i + k]);
    }
    match c {
        CommandModel::Digit3(v) => {
            lemma_digit3_round(v);
            assert(s[i] == text[0] && s[i + 1] == text[1] && s[i + 2] == text[2]);
            assert(is_digit(s[i]) && is_digit(s[i + 1]) && is_digit(s[i + 2]));
        },
        CommandModel::Cmd(name) => {
            assert(s[i] == name[0] && is_letter(name[0]));
            assert(!is_digit(s[i]));
            assert forall|k: int| i <= k < e implies is_letter(#[trigger] s[k]) by {
                assert(s[k] == name[k - i]);
            }
            assert(!is_letter(' '));
            lemma_token_run(s, i, e, letter_pred());
            assert(s.subrange(i, e) =~= name);
        },
    }
}

/// A serialized parameter list, read to the end of the line, parses back to
/// itself.
proof fn lemma_params_round(s: Seq<char>, ps: Seq<Seq<char>>, k: int, i: int)
    requires
        plain_params(ps),
        0 <= k <= ps.len(),
        0 <= i <= s.len(),
        s.subrange(i, s.len() as int) == spec_params_text(ps.skip(k)),
    ensures
        spec_parse_params(s, i, ps.take(k)) == Some(ps),
    decreases ps.len() - k,
{
    let n = ps.len() as int;
    let text = spec_params_text(ps.skip(k));
    assert forall|q: int| 0 <= q < text.len() implies s[i + q] == text[q] by {
        assert(s.subrange(i, s.len() as int)[q] == s[i + q]);
    }
    assert(s.len() == i + text.len());
    if k == n {
        assert(ps.skip(k).len() == 0);
        assert(text.len() == 0);
        assert(i >= s.len());
        assert(ps.take(k) =~= ps);
    } else if k == n - 1 {
        let t = ps.last();
        assert(ps.skip(k).len() == 1);
        assert(ps.skip(k).last() == t);
        assert(ps.skip(k).take(0) =~= Seq::<Seq<char>>::empty());
        assert(t.len() > 0);
        if t.contains(' ') {
            assert(text =~= seq![' ', ':'] + t);
            assert(s[i + 0] == text[0] && s[i + 1] == text[1]);
            assert(s[i] == ' ' && s[i + 1] == ':');
            assert(i + 1 < s.len());
            assert forall|q: int| i + 2 <= q < s.len() implies is_nocrlf(#[trigger] s[q]) by {
                assert(s[q] == text[q - i]);
                assert(text[q - i] == t[q - i - 2]);
            }
            lemma_token_run(s, i + 2, s.len() as int, nocrlf_pred());
            assert(s.subrange(i + 2, s.len() as int) =~= t) by {
                assert forall|q: int| 0 <= q < t.len() implies s.subrange(
                    i + 2,
                    s.len() as int,
                )[q] == t[q] by {
                    assert(s[i + 2 + q] == text[2 + q]);
                }
            }
            assert(ps.take(k).push(t) =~= ps);
        } else {
            assert(t[0] != ':');
            assert(text =~= seq![' '] + t);
            assert(s[i + 0] == text[0] && s[i + 1] == text[1]);
            assert(s[i] == ' ');
            assert(i + 1 < s.len());
            assert(s[i + 1] == t[0]);
            assert forall|q: int| i + 1 <= q < s.len() implies is_nospcrlf(#[trigger] s[q]) by {
                assert(s[q] == text[q - i]);
                assert(text[q - i] == t[q - i - 1]);
                assert(!t.contains(' ') ==> t[q - i - 1] != ' ') by {
                    if t[q - i - 1] == ' ' {
                        assert(t.contains(' '));
                    }
                }
            }
            lemma_token_run(s, i + 1, s.len() as int, nospcrlf_pred());
            let me = s.len() as int;
            assert(me > i + 1);
            assert(s.subrange(i + 1, me) =~= t) by {
                assert forall|q: int| 0 <= q < t.len() implies s.subrange(i + 1, me)[q] == t[q] by {
                    assert(s[i + 1 + q] == text[1 + q]);
                }
            }
            assert(spec_parse_params(s, me, ps.take(k).push(t)) == Some(ps.take(k).push(t)));
            assert(ps.take(k).push(t) =~= ps);
        }
    } else {
        let m = ps[k];
        let rest_text = spec_params_text(ps.skip(k + 1));
        assert(m.len() > 0 && !m.contains(':'));
        // the whole text is one space, this middle, then the rest
        assert(text =~= seq![' '] + m + rest_text) by {
            let mids = ps.skip(k).take(ps.skip(k).len() - 1);
            let rmids = ps.skip(k + 1).take(ps.skip(k + 1).len() - 1);
            assert(ps.skip(k).last() == ps.last());
            assert(ps.skip(k + 1).last() == ps.last());
            assert(mids[0] == m);
            assert(mids.drop_first() =~= rmids);
            if rmids.len() == 0 {
                assert(mids.len() == 1);
                assert(spec_join(mids, seq![' ']) == m);
            } else {
                assert(mids.len() >= 2);
                assert(spec_join(mids, seq![' ']) == m + seq![' '] + spec_join(rmids, seq![' ']));
            }
        }
        assert(s[i + 0] == text[0] && s[i + 1] == text[1]);
        assert(s[i] == ' ');
        assert(i + 1 < s.len());
        assert(s[i + 1] == m[0]);
        assert(m[0] != ':') by {
            if m[0] == ':' {
                assert(m.contains(':'));
            }
        }
        let me = i + 1 + m.len();
        assert forall|q: int| i + 1 <= q < me implies is_nospcrlf(#[trigger] s[q]) by {
            assert(s[q] == text[q - i]);
            assert(text[q - i] == m[q - i - 1]);
        }
        assert(s[me] == ' ') by {
            assert(text[me - i] == rest_text[0]);
            assert(rest_text[0] == ' ') by {
                let rmids = ps.skip(k + 1).take(ps.skip(k + 1).len() - 1);
                if rmids.len() > 0 {
                    assert(rest_text[0] == ' ');
                } else {
                    assert(ps.skip(k + 1).last() == ps.last());
                    assert(ps.last().len() > 0);
                }
            }
        }
        assert(!is_nospcrlf(' '));
        lemma_token_run(s, i + 1, me, nospcrlf_pred());
        assert(s.subrange(i + 1, me) =~= m) by {
            assert forall|q: int| 0 <= q < m.len() implies s.subrange(i + 1, me)[q] == m[q] by {
                assert(s[i + 1 + q] == text[1 + q]);
            }
        }
        assert(s.subrange(me, s.len() as int) =~= rest_text) by {
            assert forall|q: int| 0 <= q < rest_text.len() implies s.subrange(
                me,
                s.len() as int,
            )[q] == rest_text[q] by {
                assert(s[me + q] == text[me - i + q]);
            }
        }
        assert(ps.take(k).push(m) =~= ps.take(k + 1));
        lemma_params_round(s, ps, k + 1, me);
    }
}

/// A source that survives the wire: non-empty tokens of their classes, and
/// never a user with both parts absent, which reads back as a bare host.
pub open spec fn plain_source(src: Option<SourceModel>) -> bool {
    match src {
        None => true,
        Some(SourceModel::Host(n)) => n.len() > 0 && all_chars(n, name_pred()),
        Some(SourceModel::User(u)) => {
            &&& u.nick.len() > 0 && all_chars(u.nick, name_pred())
            &&& (u.user is Some || u.host is Some)
            &&& match u.user {
                Some(x) => x.len() > 0 && all_chars(x, user_pred()),
                None => true,
            }
            &&& match u.host {
                Some(x) => x.len() > 0 && all_chars(x, nospcrlf_pred()),
                None => true,
            }
        },
    }
}

/// A serialized source part parses back to itself; where there is none, the
/// body begins with something other than a colon.
proof fn lemma_source_round(s: Seq<char>, src: Option<SourceModel>, i: int)
    requires
        plain_source(src),
        0 <= i,
        i + spec_source_part(src).len() <= s.len(),
        s.subrange(i, i + spec_source_part(src).len()) == spec_source_part(src),
        src is None ==> i >= s.len() || s[i] != ':',
    ensures
        spec_parse_source_part(s, i) == Some((src, i + spec_source_part(src).len())),
{
    let text = spec_source_part(src);
    let e = i + text.len();
    assert forall|k: int| 0 <= k < text.len() implies s[i + k] == text[k] by {
        assert(s.subrange(i, e)[k] == s[i + k]);
    }
    match src {
        None => {},
        Some(sm) => {
            let body = spec_source_text(sm);
            assert(text =~= seq![':'] + body + seq![' ']);
            assert(s[i + 0] == text[0]);
            assert(s[i] == ':');
            assert(i < s.len());
            assert forall|q: int| 0 <= q < body.len() implies s[i + 1 + q] == body[q] by {
                assert(s[i + 1 + q] == text[1 + q]);
            }
            assert(s[e - 1] == ' ') by {
                assert(s[i + (text.len() - 1)] == text[text.len() - 1]);
            }
            match sm {
                SourceModel::Host(n) => {
                    assert(body == n);
                    let ne = i + 1 + n.len();
                    assert forall|q: int| i + 1 <= q < ne implies name_pred()(#[trigger] s[q]) by {
                        assert(s[q] == n[q - i - 1]);
                    }
                    assert(!name_pred()(' '));
                    assert(ne == e - 1);
                    lemma_token_run(s, i + 1, ne, name_pred());
                    assert(ne > i + 1);
                    assert(s.subrange(i + 1, ne) =~= n) by {
                        assert forall|q: int| 0 <= q < n.len() implies s.subrange(i + 1, ne)[q]
                            == n[q] by {
                            assert(s[i + 1 + q] == n[q]);
                        }
                    }
                    assert(s[ne] == ' ');
                },
                SourceModel::User(u) => {
                    let upart: Seq<char> = match u.user {
                        Some(us) => seq!['!'] + us,
                        None => Seq::<char>::empty(),
                    };
                    let hpart: Seq<char> = match u.host {
                        Some(h) => seq!['@'] + h,
                        None => Seq::<char>::empty(),
                    };
                    assert(body =~= u.nick + upart + hpart);
                    let ne = i + 1 + u.nick.len();
                    assert forall|q: int| i + 1 <= q < ne implies name_pred()(#[trigger] s[q]) by {
                        assert(s[q] == body[q - i - 1]);
                        assert(body[q - i - 1] == u.nick[q - i - 1]);
                    }
                    assert(s[ne as int] == body[ne - i - 1] || ne == e - 1);
                    let after_nick: char = if u.user is Some {
                        '!'
                    } else if u.host is Some {
                        '@'
                    } else {
                        ' '
                    };
                    assert(ne < e ==> s[ne as int] == after_nick) by {
                        if u.user is Some {
                            assert(body[u.nick.len() as int] == upart[0]);
                            assert(s[ne as int] == body[ne - i - 1]);
                        } else if u.host is Some {
                            assert(body[u.nick.len() as int] == hpart[0]);
                            assert(s[ne as int] == body[ne - i - 1]);
                        } else {
                            assert(s[i + (text.len() - 1)] == text[text.len() - 1]);
                        }
                    }
                    assert(!name_pred()('!') && !name_pred()('@') && !name_pred()(' '));
                    lemma_token_run(s, i + 1, ne, name_pred());
                    assert(s.subrange(i + 1, ne) =~= u.nick) by {
                        assert forall|q: int| 0 <= q < u.nick.len() implies s.subrange(
                            i + 1,
                            ne,
                        )[q] == u.nick[q] by {
                            assert(s[i + 1 + q] == body[q]);
                        }
                    }
                    let je = match u.user {
                        Some(us) => ne + 1 + us.len(),
                        None => ne,
                    };
                    match u.user {
                        Some(us) => {
                            assert(s[ne as int] == '!');
                            assert forall|q: int| ne + 1 <= q < je implies user_pred()(
                                #[trigger] s[q],
                            ) by {
                                assert(s[q] == body[q - i - 1]);
                                assert(body[q - i - 1] == us[q - ne - 1]);
                            }
                            if u.host is Some {
                                assert(body[je - i - 1] == hpart[0]);
                                assert(s[je as int] == body[je - i - 1]);
                                assert(s[je as int] == '@');
                            } else {
                                assert(je == e - 1);
                                assert(s[i + (text.len() - 1)] == text[text.len() - 1]);
                                assert(s[je as int] == ' ');
                            }
                            assert(!user_pred()('@') && !user_pred()(' '));
                            lemma_token_run(s, ne + 1, je, user_pred());
                            assert(s.subrange(ne + 1, je) =~= us) by {
                                assert forall|q: int| 0 <= q < us.len() implies s.subrange(
                                    ne + 1,
                                    je,
                                )[q] == us[q] by {
                                    assert(s[ne + 1 + q] == body[ne - i + q]);
                                }
                            }
                        },
                        None => {
                            assert(s[ne as int] != '!');
                        },
                    }
                    let ke = match u.host {
                        Some(h) => je + 1 + h.len(),
                        None => je,
                    };
                    assert(ke == e - 1);
                    match u.host {
                        Some(h) => {
                            assert(s[je as int] == '@') by {
                                assert(body[je - i - 1] == hpart[0]);
                                assert(s[je as int] == body[je - i - 1]);
                            }
                            assert forall|q: int| je + 1 <= q < ke implies nospcrlf_pred()(
                                #[trigger] s[q],
                            ) by {
                                assert(s[q] == body[q - i - 1]);
                                assert(body[q - i - 1] == h[q - je - 1]);
                            }
                            assert(s[ke as int] == ' ');
                            assert(!nospcrlf_pred()(' '));
                            lemma_token_run(s, je + 1, ke, nospcrlf_pred());
                            assert(s.subrange(je + 1, ke) =~= h) by {
                                assert forall|q: int| 0 <= q < h.len() implies s.subrange(
                                    je + 1,
                                    ke,
                                )[q] == h[q] by {
                                    assert(s[je + 1 + q] == body[je - i + q]);
                                }
                            }
                        },
                        None => {
                            assert(s[je as int] != '@');
                        },
                    }
                    assert(s[ke as int] == ' ');
                },
            }
        },
    }
}

/// A non-empty parameter list's text opens with a space.
proof fn lemma_params_text_space(ps: Seq<Seq<char>>)
    requires
        plain_params(ps),
    ensures
        ps.len() == 0 ==> spec_params_text(ps).len() == 0,
        ps.len() > 0 ==> spec_params_text(ps).len() > 0 && spec_params_text(ps)[0] == ' ',
{
    if ps.len() > 0 {
        let middles = ps.take(ps.len() - 1);
        let t = ps.last();
        assert(t.len() > 0);
        if middles.len() == 0 {
            assert(spec_params_text(ps)[0] == ' ');
        } else {
            assert((seq![' '] + spec_join(middles, seq![' ']))[0] == ' ');
        }
    } else {
        assert(spec_params_text(ps) =~= Seq::<char>::empty());
    }
}

/// The serialization of a plain generic body is never mistaken for a
/// capability message: its command is not `CAP`.
proof fn lemma_msg_cap_none(s: Seq<char>, g: GenericMessageModel, i: int)
    requires
        plain_command(g.command),
        plain_params(g.parameters),
        0 <= i <= s.len(),
        s.subrange(i, s.len() as int) == spec_generic_text(g),
    ensures
        spec_parse_msg_cap(s, i) is None,
{
    let text = spec_generic_text(g);
    let ct = spec_command_text(g.command);
    let pt = spec_params_text(g.parameters);
    assert forall|q: int| 0 <= q < text.len() implies s[i + q] == text[q] by {
        assert(s.subrange(i, s.len() as int)[q] == s[i + q]);
    }
    assert(s.len() == i + text.len());
    lemma_params_text_space(g.parameters);
    if i + 4 <= s.len() {
        match g.command {
            CommandModel::Digit3(v) => {
                lemma_digit3_round(v);
                assert(s[i + 0] == text[0]);
                assert(text[0] == ct[0]);
                assert(is_digit(ct[0]));
                assert(s[i] != 'C');
            },
            CommandModel::Cmd(name) => {
                let nl = name.len() as int;
                if nl >= 4 {
                    assert(s[i + 3] == text[3]);
                    assert(text[3] == name[3]);
                    assert(is_letter(name[3]));
                    assert(s[i + 3] != ' ');
                } else if nl == 3 {
                    assert(s[i + 0] == text[0] && s[i + 1] == text[1] && s[i + 2] == text[2]);
                    assert(text[0] == name[0] && text[1] == name[1] && text[2] == name[2]);
                    if s[i] == 'C' && s[i + 1] == 'A' && s[i + 2] == 'P' {
                        assert(name =~= seq!['C', 'A', 'P']);
                    }
                } else {
                    // the space that opens the parameters sits inside `CAP `
                    assert(text.len() >= 4);
                    assert(pt.len() > 0);
                    assert(s[i + nl] == text[nl]);
                    assert(text[nl] == pt[0]);
                    assert(s[i + nl] == ' ');
                    if nl == 1 {
                        assert(s[i + 1] != 'A');
                    } else {
                        assert(nl == 2);
                        assert(s[i + 2] != 'P');
                    }
                }
            },
        }
    }
}

/// A message that survives the wire unchanged: sorted plain tags, a plain
/// source, and a generic body whose command is not `CAP` and whose
/// parameters are non-empty middles without colons and a non-empty trailing.
pub open spec fn round_trippable(m: MessageModel) -> bool {
    &&& tags_wf(m.tags)
    &&& forall|q: int| 0 <= q < m.tags.len() ==> plain_tag(#[trigger] m.tags[q])
    &&& plain_source(m.source)
    &&& match m.msg_type {
        MessageTypeModel::Generic(g) => plain_command(g.command) && plain_params(g.parameters),
        MessageTypeModel::Capability(_) => false,
    }
}

/// Parsing the serialization of a round-trippable message gives back exactly
/// that message.
#[verifier::rlimit(60)]
pub proof fn lemma_parse_of_serialized(m: MessageModel)
    requires
        round_trippable(m),
    ensures
        spec_parse_message(spec_message_text(m)) == Some(m),
{
    let s = spec_message_text(m);
    let tp = spec_tags_part(m.tags);
    let sp = spec_source_part(m.source);
    let g = m.msg_type->Generic_0;
    let bt = spec_generic_text(g);
    let ct = spec_command_text(g.command);
    let pt = spec_params_text(g.parameters);
    assert(s =~= tp + sp + bt);
    let i1 = tp.len() as int;
    let i2 = i1 + sp.len();
    assert forall|q: int| 0 <= q < tp.len() implies s[q] == tp[q] by {}
    assert forall|q: int| 0 <= q < sp.len() implies s[i1 + q] == sp[q] by {}
    assert forall|q: int| 0 <= q < bt.len() implies s[i2 + q] == bt[q] by {}
    assert(ct.len() > 0) by {
        match g.command {
            CommandModel::Digit3(_) => {},
            CommandModel::Cmd(_) => {},
        }
    }
    assert(bt.len() > 0);
    assert(i2 < s.len());
    // the first character of the body is a letter or a digit
    lemma_params_text_space(g.parameters);
    assert(bt[0] == ct[0]);
    let first_body: char = ct[0];
    assert(is_letter(first_body) || is_digit(first_body)) by {
        match g.command {
            CommandModel::Digit3(v) => {
                lemma_digit3_round(v);
            },
            CommandModel::Cmd(_) => {},
        }
    }
    // tags
    if m.tags.len() == 0 {
        assert(tp.len() == 0);
        assert(s[0] != '@') by {
            if m.source is Some {
                assert(s[0] == sp[0]);
                assert(sp[0] == ':');
            } else {
                assert(s[0] == bt[0]);
            }
        }
        assert(spec_parse_tags_part(s) == Some((Seq::<TagModel>::empty(), 0int)));
        assert(Seq::<TagModel>::empty() =~= m.tags);
    } else {
        let texts = m.tags.map_values(|t: TagModel| spec_tag_text(t));
        assert(tp =~= seq!['@'] + spec_join(texts, seq![';']) + seq![' ']);
        assert(s[0] == '@');
        let e = i1 - 1;
        assert(s[e] == ' ') by {
            assert(s[0 + (tp.len() - 1)] == tp[tp.len() - 1]);
        }
        assert(m.tags.skip(0) =~= m.tags);
        assert(s.subrange(1, e) =~= spec_join(texts, seq![';'])) by {
            assert forall|q: int| 0 <= q < e - 1 implies s.subrange(1, e)[q] == spec_join(
                texts,
                seq![';'],
            )[q] by {
                assert(s[1 + q] == tp[1 + q]);
            }
        }
        lemma_tag_list_round(s, m.tags, 0, 1, e);
        assert(m.tags.take(0) =~= Seq::<TagModel>::empty());
        assert(spec_parse_tags_part(s) == Some((m.tags, i1)));
    }
    // source
    assert(s.subrange(i1, i2) =~= sp) by {
        assert forall|q: int| 0 <= q < sp.len() implies s.subrange(i1, i2)[q] == sp[q] by {
            assert(s[i1 + q] == sp[q]);
        }
    }
    assert(m.source is None ==> s[i1] != ':') by {
        if m.source is None {
            assert(i1 == i2);
            assert(s[i2 + 0] == bt[0]);
        }
    }
    lemma_source_round(s, m.source, i1);
    // the body is not a capability message
    assert(s.subrange(i2, s.len() as int) =~= bt) by {
        assert forall|q: int| 0 <= q < bt.len() implies s.subrange(i2, s.len() as int)[q] == bt[q]
            by {
            assert(s[i2 + q] == bt[q]);
        }
    }
    lemma_msg_cap_none(s, g, i2);
    // the command
    let ce = i2 + ct.len();
    assert(s.subrange(i2, ce) =~= ct) by {
        assert forall|q: int| 0 <= q < ct.len() implies s.subrange(i2, ce)[q] == ct[q] by {
            assert(s[i2 + q] == bt[q]);
        }
    }
    assert(ce < s.len() ==> s[ce] == ' ') by {
        if ce < s.len() {
            assert(pt.len() > 0);
            assert(s[i2 + ct.len()] == bt[ct.len() as int]);
            assert(bt[ct.len() as int] == pt[0]);
        }
    }
    lemma_command_round(s, g.command, i2);
    // the parameters
    assert(g.parameters.skip(0) =~= g.parameters);
    assert(s.subrange(ce, s.len() as int) =~= pt) by {
        assert forall|q: int| 0 <= q < pt.len() implies s.subrange(ce, s.len() as int)[q] == pt[q]
            by {
            assert(s[i2 + (ct.len() + q)] == bt[ct.len() + q]);
        }
    }
    assert(g.parameters.take(0) =~= Seq::<Seq<char>>::empty());
    lemma_params_round(s, g.parameters, 0, ce);
    assert(spec_parse_generic(s, i2) == Some(g)) by {
        assert(spec_parse_command(s, i2) == Some((g.command, ce)));
        assert(spec_parse_params(s, ce, Seq::empty()) == Some(g.parameters));
        assert(GenericMessageModel { command: g.command, parameters: g.parameters } == g);
    }
    assert(spec_parse_msg_type(s, i2) == Some(m.msg_type));
    assert(spec_parse_message(s) == Some(
        MessageModel { tags: m.tags, source: m.source, msg_type: m.msg_type },
    ));
    assert(MessageModel { tags: m.tags, source: m.source, msg_type: m.msg_type } == m);
}

/// The round-trip law: for a message built from plain parts — non-empty,
/// colon-free middle parameters and a non-empty trailing parameter among
/// them — serializing, parsing the line, and serializing again reproduces
/// the very same wire text.
pub proof fn lemma_round_trip(m: MessageModel)
    requires
        round_trippable(m),
    ensures
        spec_parse_message(spec_message_text(m)) matches Some(m2) && spec_message_text(m2)
            == spec_message_text(m),
{
    lemma_parse_of_serialized(m);
}

} // verus!
