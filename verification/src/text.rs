//! Character classes of the line grammar, token scanning, and small string
//! utilities shared by the serializer and the parser.

use vstd::prelude::*;

verus! {

// ---------------------------------------------------------------------------
// Character classes.
//
// The wire grammar is defined over characters; NUL, CR and LF never occur in
// a well-formed line, and the remaining classes carve out the delimiters of
// each production.
// ---------------------------------------------------------------------------

/// Any character that may occur inside a line at all.
pub open spec fn is_nocrlf(c: char) -> bool {
    c != '\r' && c != '\n' && c != '\0'
}

/// A character of a space-delimited token.
pub open spec fn is_nospcrlf(c: char) -> bool {
    is_nocrlf(c) && c != ' '
}

/// A character of a tag key.
pub open spec fn is_key_char(c: char) -> bool {
    is_nospcrlf(c) && c != ';' && c != '='
}

/// A character of a (still escaped) tag value.
pub open spec fn is_tag_value_char(c: char) -> bool {
    is_nospcrlf(c) && c != ';'
}

/// A character of a source name (nick or host name before `!`/`@`).
pub open spec fn is_name_char(c: char) -> bool {
    is_nospcrlf(c) && c != '!' && c != '@'
}

/// A character of the user part of a source.
pub open spec fn is_user_char(c: char) -> bool {
    is_nospcrlf(c) && c != '@'
}

/// A character of a capability key.
pub open spec fn is_cap_key_char(c: char) -> bool {
    is_nospcrlf(c) && c != '=' && c != ','
}

/// A character of a capability value.
pub open spec fn is_cap_value_char(c: char) -> bool {
    is_nospcrlf(c) && c != ','
}

/// An ASCII letter, as in a named command.
pub open spec fn is_letter(c: char) -> bool {
    ('a' as u32 <= c as u32 && c as u32 <= 'z' as u32) || ('A' as u32 <= c as u32 && c as u32
        <= 'Z' as u32)
}

/// An ASCII digit.
pub open spec fn is_digit(c: char) -> bool {
    '0' as u32 <= c as u32 && c as u32 <= '9' as u32
}

pub fn nocrlf_char(c: char) -> (b: bool)
    ensures
        b == is_nocrlf(c),
{
    c != '\r' && c != '\n' && c != '\0'
}

pub fn nospcrlf_char(c: char) -> (b: bool)
    ensures
        b == is_nospcrlf(c),
{
    nocrlf_char(c) && c != ' '
}

pub fn key_char(c: char) -> (b: bool)
    ensures
        b == is_key_char(c),
{
    nospcrlf_char(c) && c != ';' && c != '='
}

pub fn tag_value_char(c: char) -> (b: bool)
    ensures
        b == is_tag_value_char(c),
{
    nospcrlf_char(c) && c != ';'
}

pub fn name_char(c: char) -> (b: bool)
    ensures
        b == is_name_char(c),
{
    nospcrlf_char(c) && c != '!' && c != '@'
}

pub fn user_char(c: char) -> (b: bool)
    ensures
        b == is_user_char(c),
{
    nospcrlf_char(c) && c != '@'
}

pub fn cap_key_char(c: char) -> (b: bool)
    ensures
        b == is_cap_key_char(c),
{
    nospcrlf_char(c) && c != '=' && c != ','
}

pub fn cap_value_char(c: char) -> (b: bool)
    ensures
        b == is_cap_value_char(c),
{
    nospcrlf_char(c) && c != ','
}

pub fn letter_char(c: char) -> (b: bool)
    ensures
        b == is_letter(c),
{
    let u = c as u32;
    ('a' as u32 <= u && u <= 'z' as u32) || ('A' as u32 <= u && u <= 'Z' as u32)
}

pub fn digit_char(c: char) -> (b: bool)
    ensures
        b == is_digit(c),
{
    let u = c as u32;
    '0' as u32 <= u && u <= '9' as u32
}

// ---------------------------------------------------------------------------
// Token scanning.
// ---------------------------------------------------------------------------

/// The end of the maximal run of characters satisfying `pred` that starts at
/// position `i` of `s`.
pub open spec fn token_end(s: Seq<char>, i: int, pred: spec_fn(char) -> bool) -> int
    decreases s.len() - i,
{
    if i < 0 || i >= s.len() {
        i
    } else if pred(s[i]) {
        token_end(s, i + 1, pred)
    } else {
        i
    }
}

pub proof fn lemma_token_end(s: Seq<char>, i: int, pred: spec_fn(char) -> bool)
    requires
        0 <= i <= s.len(),
    ensures
        i <= token_end(s, i, pred) <= s.len(),
        forall|k: int| i <= k < token_end(s, i, pred) ==> pred(s[k]),
        token_end(s, i, pred) < s.len() ==> !pred(s[token_end(s, i, pred)]),
    decreases s.len() - i,
{
    if i < s.len() && pred(s[i]) {
        lemma_token_end(s, i + 1, pred);
    }
}

/// The character classes as values, so that every mention of a class in a
/// contract is one and the same function.
pub open spec fn nocrlf_pred() -> spec_fn(char) -> bool {
    |c: char| is_nocrlf(c)
}

pub open spec fn nospcrlf_pred() -> spec_fn(char) -> bool {
    |c: char| is_nospcrlf(c)
}

pub open spec fn key_pred() -> spec_fn(char) -> bool {
    |c: char| is_key_char(c)
}

pub open spec fn tag_value_pred() -> spec_fn(char) -> bool {
    |c: char| is_tag_value_char(c)
}

pub open spec fn name_pred() -> spec_fn(char) -> bool {
    |c: char| is_name_char(c)
}

pub open spec fn user_pred() -> spec_fn(char) -> bool {
    |c: char| is_user_char(c)
}

pub open spec fn cap_key_pred() -> spec_fn(char) -> bool {
    |c: char| is_cap_key_char(c)
}

pub open spec fn cap_value_pred() -> spec_fn(char) -> bool {
    |c: char| is_cap_value_char(c)
}

pub open spec fn letter_pred() -> spec_fn(char) -> bool {
    |c: char| is_letter(c)
}

/// Scans the maximal run of characters satisfying `f` that starts at `i`.
pub fn scan<F: Fn(char) -> bool>(s: &str, i: usize, f: &F, Ghost(pred): Ghost<
    spec_fn(char) -> bool,
>) -> (r: usize)
    requires
        i as int <= s@.len(),
        forall|c: char| #[trigger] f.requires((c,)),
        forall|c: char, b: bool| f.ensures((c,), b) ==> b == pred(c),
    ensures
        r == token_end(s@, i as int, pred),
        i as int <= r as int <= s@.len(),
{
    proof {
        lemma_token_end(s@, i as int, pred);
    }
    let n = s.unicode_len();
    let mut j = i;
    loop
        invariant
            i <= j <= n,
            n == s@.len(),
            token_end(s@, i as int, pred) == token_end(s@, j as int, pred),
            forall|c: char| #[trigger] f.requires((c,)),
            forall|c: char, b: bool| f.ensures((c,), b) ==> b == pred(c),
        ensures
            j == token_end(s@, i as int, pred),
        decreases n - j,
    {
        if j >= n {
            break ;
        }
        let c = s.get_char(j);
        if !f(c) {
            break ;
        }
        j += 1;
    }
    j
}

/// A maximal run is recognized from any position inside it.
pub proof fn lemma_token_end_step(s: Seq<char>, i: int, j: int, pred: spec_fn(char) -> bool)
    requires
        0 <= i <= j <= s.len(),
        forall|k: int| i <= k < j ==> pred(s[k]),
    ensures
        token_end(s, i, pred) == token_end(s, j, pred),
    decreases j - i,
{
    if i < j {
        lemma_token_end_step(s, i + 1, j, pred);
    }
}

// ---------------------------------------------------------------------------
// Lexicographic order on character sequences (the order of tag keys).
// ---------------------------------------------------------------------------

/// Strict lexicographic order by code point; a proper prefix comes first.
pub open spec fn seq_lt(a: Seq<char>, b: Seq<char>) -> bool
    decreases a.len(),
{
    if b.len() == 0 {
        false
    } else if a.len() == 0 {
        true
    } else if a[0] == b[0] {
        seq_lt(a.drop_first(), b.drop_first())
    } else {
        (a[0] as u32) < (b[0] as u32)
    }
}

pub proof fn lemma_seq_lt_asym(a: Seq<char>, b: Seq<char>)
    requires
        seq_lt(a, b),
    ensures
        !seq_lt(b, a),
        a != b,
    decreases a.len(),
{
    if a.len() > 0 && b.len() > 0 && a[0] == b[0] {
        lemma_seq_lt_asym(a.drop_first(), b.drop_first());
    }
}

pub proof fn lemma_seq_lt_trans(a: Seq<char>, b: Seq<char>, c: Seq<char>)
    requires
        seq_lt(a, b),
        seq_lt(b, c),
    ensures
        seq_lt(a, c),
    decreases a.len(),
{
    if a.len() > 0 && b.len() > 0 && c.len() > 0 {
        if a[0] == b[0] && b[0] == c[0] {
            lemma_seq_lt_trans(a.drop_first(), b.drop_first(), c.drop_first());
        }
    }
}

/// Three-way comparison; negative, zero and positive stand for less, equal
/// and greater.
pub fn str_compare(a: &str, b: &str) -> (r: i8)
    ensures
        -1 <= r <= 1,
        (r == -1) == seq_lt(a@, b@),
        (r == 0) == (a@ == b@),
        (r == 1) == seq_lt(b@, a@),
{
    proof {
        assert(a@.skip(0) =~= a@);
        assert(b@.skip(0) =~= b@);
    }
    let an = a.unicode_len();
    let bn = b.unicode_len();
    let mut j: usize = 0;
    loop
        invariant
            j <= an,
            j <= bn,
            an == a@.len(),
            bn == b@.len(),
            seq_lt(a@, b@) == seq_lt(a@.skip(j as int), b@.skip(j as int)),
            seq_lt(b@, a@) == seq_lt(b@.skip(j as int), a@.skip(j as int)),
            (a@ == b@) == (a@.skip(j as int) == b@.skip(j as int)),
        ensures
            j <= an,
            j <= bn,
            seq_lt(a@, b@) == seq_lt(a@.skip(j as int), b@.skip(j as int)),
            seq_lt(b@, a@) == seq_lt(b@.skip(j as int), a@.skip(j as int)),
            (a@ == b@) == (a@.skip(j as int) == b@.skip(j as int)),
            j == an || j == bn || a@[j as int] != b@[j as int],
        decreases an - j,
    {
        if j >= an || j >= bn {
            break ;
        }
        let ca = a.get_char(j);
        let cb = b.get_char(j);
        if ca as u32 != cb as u32 {
            break ;
        }
        proof {
            let ra = a@.skip(j as int);
            let rb = b@.skip(j as int);
            assert(ca == cb);
            assert(ra[0] == rb[0]);
            assert(ra.drop_first() =~= a@.skip(j as int + 1));
            assert(rb.drop_first() =~= b@.skip(j as int + 1));
            if ra == rb {
                assert(ra.drop_first() == rb.drop_first());
            }
            if a@.skip(j as int + 1) == b@.skip(j as int + 1) {
                assert forall|k: int| 0 <= k < ra.len() implies ra[k] == rb[k] by {
                    if k > 0 {
                        assert(ra.drop_first()[k - 1] == rb.drop_first()[k - 1]);
                    }
                }
                assert(ra =~= rb);
            }
        }
        j += 1;
    }
    if j < an && j < bn {
        let ca = a.get_char(j);
        let cb = b.get_char(j);
        proof {
            let ra = a@.skip(j as int);
            let rb = b@.skip(j as int);
            assert(ra[0] == ca && rb[0] == cb);
            assert(ca != cb);
            if ra == rb {
                assert(ra[0] == rb[0]);
            }
        }
        if (ca as u32) < (cb as u32) {
            -1
        } else {
            1
        }
    } else if j < bn {
        proof {
            let ra = a@.skip(j as int);
            let rb = b@.skip(j as int);
            assert(ra.len() == 0 && rb.len() > 0);
            if ra == rb {
                assert(ra.len() == rb.len());
            }
        }
        -1
    } else if j < an {
        proof {
            let ra = a@.skip(j as int);
            let rb = b@.skip(j as int);
            assert(rb.len() == 0 && ra.len() > 0);
            if ra == rb {
                assert(ra.len() == rb.len());
            }
        }
        1
    } else {
        proof {
            let ra = a@.skip(j as int);
            let rb = b@.skip(j as int);
            assert(ra =~= Seq::<char>::empty());
            assert(rb =~= Seq::<char>::empty());
            assert(ra == rb);
        }
        0
    }
}

/// Whether `c` occurs in `s`.
pub fn contains_char(s: &str, c: char) -> (b: bool)
    ensures
        b == s@.contains(c),
{
    let n = s.unicode_len();
    let mut j: usize = 0;
    while j < n
        invariant
            j <= n,
            n == s@.len(),
            forall|k: int| 0 <= k < j ==> s@[k] != c,
        decreases n - j,
    {
        if s.get_char(j) == c {
            assert(s@[j as int] == c);
            return true;
        }
        j += 1;
    }
    proof {
        if s@.contains(c) {
            let w = choose|k: int| 0 <= k < s@.len() && s@[k] == c;
            assert(s@[w] != c);
        }
    }
    false
}

// ---------------------------------------------------------------------------
// Building strings.
// ---------------------------------------------------------------------------

/// Relies on String::push: appends exactly the given character at the end.
#[verifier::external_body]
pub fn push_char(s: &mut String, c: char)
    ensures
        final(s)@ == old(s)@.push(c),
{
    s.push(c);
}

// ---------------------------------------------------------------------------
// Decimal digits (the three-digit numeric command form).
// ---------------------------------------------------------------------------

pub open spec fn digit_to_char(d: int) -> char {
    if d == 0 {
        '0'
    } else if d == 1 {
        '1'
    } else if d == 2 {
        '2'
    } else if d == 3 {
        '3'
    } else if d == 4 {
        '4'
    } else if d == 5 {
        '5'
    } else if d == 6 {
        '6'
    } else if d == 7 {
        '7'
    } else if d == 8 {
        '8'
    } else {
        '9'
    }
}

/// The numeric value of a digit character.
pub open spec fn char_digit_val(c: char) -> int {
    c as u32 - '0' as u32
}

/// A number of at most three digits, zero-padded to width three.
pub open spec fn spec_digit3(v: int) -> Seq<char> {
    seq![digit_to_char(v / 100), digit_to_char((v / 10) % 10), digit_to_char(v % 10)]
}

pub fn digit3_text(v: u32) -> (r: String)
    requires
        v <= 999,
    ensures
        r@ == spec_digit3(v as int),
{
    let mut r = String::new();
    push_char(&mut r, digit_exec(v / 100));
    push_char(&mut r, digit_exec((v / 10) % 10));
    push_char(&mut r, digit_exec(v % 10));
    proof {
        assert(r@ =~= spec_digit3(v as int));
    }
    r
}

fn digit_exec(d: u32) -> (c: char)
    requires
        d <= 9,
    ensures
        c == digit_to_char(d as int),
{
    if d == 0 {
        '0'
    } else if d == 1 {
        '1'
    } else if d == 2 {
        '2'
    } else if d == 3 {
        '3'
    } else if d == 4 {
        '4'
    } else if d == 5 {
        '5'
    } else if d == 6 {
        '6'
    } else if d == 7 {
        '7'
    } else if d == 8 {
        '8'
    } else {
        '9'
    }
}

pub fn digit_val(c: char) -> (d: u32)
    requires
        is_digit(c),
    ensures
        d == char_digit_val(c),
        d <= 9,
{
    c as u32 - 48
}

// ---------------------------------------------------------------------------
// Tag value escaping.
//
// A tag value arrives escaped on the wire; the model holds the unescaped
// text. `\:` stands for `;`, `\s` for space, `\\` for `\`, `\r` and `\n`
// for the line terminators; a lone trailing `\` is dropped, and `\` before
// any other character stands for that character.
// ---------------------------------------------------------------------------

pub open spec fn unescape_char(c: char) -> char {
    if c == ':' {
        ';'
    } else if c == 's' {
        ' '
    } else if c == '\\' {
        '\\'
    } else if c == 'r' {
        '\r'
    } else if c == 'n' {
        '\n'
    } else {
        c
    }
}

pub open spec fn spec_unescape(v: Seq<char>) -> Seq<char>
    decreases v.len(),
{
    if v.len() == 0 {
        Seq::empty()
    } else if v[0] == '\\' {
        if v.len() == 1 {
            Seq::empty()
        } else {
            seq![unescape_char(v[1])] + spec_unescape(v.skip(2))
        }
    } else {
        seq![v[0]] + spec_unescape(v.skip(1))
    }
}

fn unescape_char_exec(c: char) -> (r: char)
    ensures
        r == unescape_char(c),
{
    if c == ':' {
        ';'
    } else if c == 's' {
        ' '
    } else if c == '\\' {
        '\\'
    } else if c == 'r' {
        '\r'
    } else if c == 'n' {
        '\n'
    } else {
        c
    }
}

/// Unescapes the characters of `s` between positions `from` and `to`.
pub fn unescape_range(s: &str, from: usize, to: usize) -> (r: String)
    requires
        from <= to <= s@.len(),
    ensures
        r@ == spec_unescape(s@.subrange(from as int, to as int)),
{
    let mut r = String::new();
    let mut j = from;
    loop
        invariant
            from <= j <= to,
            to <= s@.len(),
            spec_unescape(s@.subrange(from as int, to as int)) == r@ + spec_unescape(
                s@.subrange(j as int, to as int),
            ),
        ensures
            j == to,
            spec_unescape(s@.subrange(from as int, to as int)) == r@,
        decreases to - j,
    {
        if j >= to {
            proof {
                assert(s@.subrange(j as int, to as int) =~= Seq::<char>::empty());
                assert(r@ + Seq::<char>::empty() =~= r@);
            }
            break ;
        }
        let ghost rest = s@.subrange(j as int, to as int);
        let ghost r0 = r@;
        let c = s.get_char(j);
        if c == '\\' {
            if j + 1 >= to {
                // a trailing backslash is dropped
                proof {
                    assert(rest.len() == 1 && rest[0] == '\\');
                    assert(spec_unescape(rest) =~= Seq::<char>::empty());
                    assert(s@.subrange(to as int, to as int) =~= Seq::<char>::empty());
                    assert(r0 + spec_unescape(rest) =~= r0 + spec_unescape(
                        Seq::<char>::empty(),
                    ));
                }
                j = to;
            } else {
                let c2 = s.get_char(j + 1);
                push_char(&mut r, unescape_char_exec(c2));
                proof {
                    assert(rest[0] == '\\' && rest.len() >= 2 && rest[1] == s@[j as int + 1]);
                    assert(rest.skip(2) =~= s@.subrange(j as int + 2, to as int));
                    assert(r@ =~= r0 + seq![unescape_char(rest[1])]);
                    assert(r0 + spec_unescape(rest) =~= r@ + spec_unescape(
                        s@.subrange(j as int + 2, to as int),
                    ));
                }
                j += 2;
            }
        } else {
            push_char(&mut r, c);
            proof {
                assert(rest[0] == s@[j as int] && rest[0] != '\\');
                assert(rest.skip(1) =~= s@.subrange(j as int + 1, to as int));
                assert(r@ =~= r0 + seq![rest[0]]);
                assert(r0 + spec_unescape(rest) =~= r@ + spec_unescape(
                    s@.subrange(j as int + 1, to as int),
                ));
            }
            j += 1;
        }
    }
    r
}

// ---------------------------------------------------------------------------
// Joining parts with a separator.
// ---------------------------------------------------------------------------

pub open spec fn spec_join(parts: Seq<Seq<char>>, sep: Seq<char>) -> Seq<char>
    decreases parts.len(),
{
    if parts.len() == 0 {
        Seq::empty()
    } else if parts.len() == 1 {
        parts[0]
    } else {
        parts[0] + sep + spec_join(parts.drop_first(), sep)
    }
}

pub proof fn lemma_join_push(parts: Seq<Seq<char>>, sep: Seq<char>, x: Seq<char>)
    requires
        parts.len() >= 1,
    ensures
        spec_join(parts.push(x), sep) == spec_join(parts, sep) + sep + x,
    decreases parts.len(),
{
    let p2 = parts.push(x);
    if parts.len() == 1 {
        assert(p2.drop_first() =~= seq![x]);
        assert(spec_join(p2.drop_first(), sep) == x);
        assert(spec_join(p2, sep) =~= parts[0] + sep + x);
    } else {
        lemma_join_push(parts.drop_first(), sep, x);
        assert(p2.drop_first() =~= parts.drop_first().push(x));
        assert(spec_join(p2, sep) =~= parts[0] + sep + (spec_join(parts.drop_first(), sep) + sep
            + x));
        assert(parts[0] + sep + (spec_join(parts.drop_first(), sep) + sep + x) =~= (parts[0] + sep
            + spec_join(parts.drop_first(), sep)) + sep + x);
    }
}

/// Joins the views of `parts` with the separator `sep`.
pub fn join_strs(parts: &Vec<String>, sep: &str) -> (r: String)
    ensures
        r@ == spec_join(parts.deep_view(), sep@),
{
    let mut r = String::new();
    if parts.len() == 0 {
        return r;
    }
    r.append(parts[0].as_str());
    proof {
        assert(parts.deep_view().subrange(0, 1) =~= seq![parts.deep_view()[0]]);
        assert(parts.deep_view()[0] == parts[0]@);
        assert(r@ == spec_join(parts.deep_view().subrange(0, 1), sep@));
    }
    let mut j: usize = 1;
    while j < parts.len()
        invariant
            1 <= j <= parts.len(),
            r@ == spec_join(parts.deep_view().subrange(0, j as int), sep@),
        decreases parts.len() - j,
    {
        r.append(sep);
        r.append(parts[j].as_str());
        proof {
            let dv = parts.deep_view();
            lemma_join_push(dv.subrange(0, j as int), sep@, dv[j as int]);
            assert(dv.subrange(0, j as int + 1) =~= dv.subrange(0, j as int).push(dv[j as int]));
            assert(dv[j as int] == parts[j as int]@);
            assert(r@ =~= spec_join(dv.subrange(0, j as int), sep@) + sep@ + dv[j as int]);
        }
        j += 1;
    }
    proof {
        assert(parts.deep_view().subrange(0, parts.len() as int) =~= parts.deep_view());
    }
    r
}

} // verus!
