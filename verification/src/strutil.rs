//! String primitives shared by the segmenter, the dictionary and the
//! candidate pipeline: ASCII lowercasing, lexicographic order on
//! character sequences, concatenation and joining of token lists.

use vstd::prelude::*;

verus! {

/// A lower-case ASCII letter.
pub open spec fn is_lower_char(c: char) -> bool {
    'a' <= c && c <= 'z'
}

/// An upper-case ASCII letter.
pub open spec fn is_upper_char(c: char) -> bool {
    'A' <= c && c <= 'Z'
}

/// ASCII lowercasing of a single character; anything that is not an
/// upper-case ASCII letter is unchanged.
pub open spec fn lower_char(c: char) -> char {
    if is_upper_char(c) {
        (((c as u8) + 32) as u8) as char
    } else {
        c
    }
}

/// ASCII lowercasing of a character sequence.
pub open spec fn to_lower_seq(s: Seq<char>) -> Seq<char> {
    s.map_values(|c: char| lower_char(c))
}

/// Exec lowercasing of one character, proved against `lower_char`.
pub fn lower_char_exec(c: char) -> (r: char)
    ensures
        r == lower_char(c),
{
    if 'A' <= c && c <= 'Z' {
        ((c as u8) + 32) as char
    } else {
        c
    }
}

/// Relies on `String::push`: appends exactly the given character.
#[verifier::external_body]
pub fn push_char(s: &mut String, c: char)
    ensures
        final(s)@ == old(s)@.push(c),
{
    s.push(c);
}

/// Lexicographic order on character sequences, by Unicode code point.
/// Agrees with Rust's order on `str` values.
pub open spec fn lex_le(a: Seq<char>, b: Seq<char>) -> bool
    decreases a.len(),
{
    if a.len() == 0 {
        true
    } else if b.len() == 0 {
        false
    } else if (a[0] as u32) < (b[0] as u32) {
        true
    } else if (a[0] as u32) > (b[0] as u32) {
        false
    } else {
        lex_le(a.drop_first(), b.drop_first())
    }
}

/// Any two sequences are ordered one way or the other.
pub proof fn lemma_lex_le_total(a: Seq<char>, b: Seq<char>)
    ensures
        lex_le(a, b) || lex_le(b, a),
    decreases a.len(),
{
    if a.len() == 0 {
        assert(lex_le(a, b));
    } else if b.len() == 0 {
        assert(lex_le(b, a));
    } else if (a[0] as u32) < (b[0] as u32) {
        assert(lex_le(a, b));
    } else if (a[0] as u32) > (b[0] as u32) {
        assert(lex_le(b, a));
    } else {
        lemma_lex_le_total(a.drop_first(), b.drop_first());
        assert(lex_le(a, b) == lex_le(a.drop_first(), b.drop_first()));
        assert(lex_le(b, a) == lex_le(b.drop_first(), a.drop_first()));
    }
}

/// Lexicographic order is transitive.
pub proof fn lemma_lex_le_trans(a: Seq<char>, b: Seq<char>, c: Seq<char>)
    requires
        lex_le(a, b),
        lex_le(b, c),
    ensures
        lex_le(a, c),
    decreases a.len(),
{
    if a.len() > 0 && b.len() > 0 && c.len() > 0 && (a[0] as u32) == (b[0] as u32) && (b[0] as u32)
        == (c[0] as u32) {
        lemma_lex_le_trans(a.drop_first(), b.drop_first(), c.drop_first());
        assert(lex_le(a, c) == lex_le(a.drop_first(), c.drop_first()));
    }
}

/// Equal prefixes do not affect the order of what follows them.
proof fn lemma_lex_le_skip(a: Seq<char>, b: Seq<char>, i: int)
    requires
        0 <= i <= a.len(),
        i <= b.len(),
        a.take(i) =~= b.take(i),
    ensures
        lex_le(a, b) == lex_le(a.skip(i), b.skip(i)),
    decreases i,
{
    if i == 0 {
        assert(a.skip(0) =~= a);
        assert(b.skip(0) =~= b);
    } else {
        assert(a[0] == b[0]) by {
            assert(a.take(i)[0] == b.take(i)[0]);
        }
        assert(a.drop_first().take(i - 1) =~= b.drop_first().take(i - 1)) by {
            assert forall|k: int| 0 <= k < i - 1 implies #[trigger] (a.drop_first().take(i - 1)[k])
                == b.drop_first().take(i - 1)[k] by {
                assert(a.take(i)[k + 1] == b.take(i)[k + 1]);
            }
        }
        lemma_lex_le_skip(a.drop_first(), b.drop_first(), i - 1);
        assert(a.drop_first().skip(i - 1) =~= a.skip(i));
        assert(b.drop_first().skip(i - 1) =~= b.skip(i));
        assert(lex_le(a, b) == lex_le(a.drop_first(), b.drop_first()));
    }
}

/// Decides `lex_le` on two string slices.
pub fn str_lex_le(a: &str, b: &str) -> (r: bool)
    ensures
        r == lex_le(a@, b@),
{
    let na = a.unicode_len();
    let nb = b.unicode_len();
    let n = if na < nb {
        na
    } else {
        nb
    };
    let mut i: usize = 0;
    while i < n
        invariant
            n <= na == a@.len(),
            n <= nb == b@.len(),
            n == if na < nb { na as int } else { nb as int },
            i <= n,
            a@.take(i as int) =~= b@.take(i as int),
        decreases n - i,
    {
        let ca = a.get_char(i);
        let cb = b.get_char(i);
        if (ca as u32) < (cb as u32) {
            proof {
                lemma_lex_le_skip(a@, b@, i as int);
            }
            return true;
        }
        if (ca as u32) > (cb as u32) {
            proof {
                lemma_lex_le_skip(a@, b@, i as int);
            }
            return false;
        }
        proof {
            assert(ca == cb) by {
                assert(ca as u32 == cb as u32);
            }
            assert(a@.take(i + 1) =~= b@.take(i + 1)) by {
                assert(a@.take(i + 1) =~= a@.take(i as int).push(a@[i as int]));
                assert(b@.take(i + 1) =~= b@.take(i as int).push(b@[i as int]));
            }
        }
        i = i + 1;
    }
    proof {
        lemma_lex_le_skip(a@, b@, n as int);
        assert(a@.skip(n as int).len() == 0 || b@.skip(n as int).len() == 0);
    }
    na <= nb
}

/// Concatenation of a sequence of character sequences, in order.
pub open spec fn concat_seqs(ts: Seq<Seq<char>>) -> Seq<char>
    decreases ts.len(),
{
    if ts.len() == 0 {
        Seq::empty()
    } else {
        concat_seqs(ts.drop_last()) + ts.last()
    }
}

/// Appending one more piece extends the concatenation by that piece.
pub proof fn lemma_concat_push(ts: Seq<Seq<char>>, t: Seq<char>)
    ensures
        concat_seqs(ts.push(t)) == concat_seqs(ts) + t,
{
    assert(ts.push(t).drop_last() =~= ts);
    assert(ts.push(t).last() == t);
}

/// Prepending a piece extends the concatenation from the front.
pub proof fn lemma_concat_prepend(t: Seq<char>, ts: Seq<Seq<char>>)
    ensures
        concat_seqs(seq![t] + ts) == t + concat_seqs(ts),
    decreases ts.len(),
{
    if ts.len() == 0 {
        assert(seq![t] + ts =~= seq![t]);
        assert(concat_seqs(seq![t]) =~= t + concat_seqs(ts)) by {
            assert(concat_seqs(Seq::<Seq<char>>::empty()) =~= Seq::<char>::empty());
            assert(seq![t].drop_last() =~= Seq::<Seq<char>>::empty());
            assert(concat_seqs(seq![t]) == concat_seqs(seq![t].drop_last()) + seq![t].last());
            assert(Seq::<char>::empty() + t =~= t);
            assert(t + concat_seqs(ts) =~= t);
        }
    } else {
        lemma_concat_prepend(t, ts.drop_last());
        assert((seq![t] + ts).drop_last() =~= seq![t] + ts.drop_last());
        assert((seq![t] + ts).last() == ts.last());
        assert(t + concat_seqs(ts.drop_last()) + ts.last() =~= t + (concat_seqs(ts.drop_last())
            + ts.last()));
    }
}

/// Concatenation distributes over appending token lists.
pub proof fn lemma_concat_append(a: Seq<Seq<char>>, b: Seq<Seq<char>>)
    ensures
        concat_seqs(a + b) == concat_seqs(a) + concat_seqs(b),
    decreases b.len(),
{
    if b.len() == 0 {
        assert(a + b =~= a);
        assert(concat_seqs(b) =~= Seq::<char>::empty());
        assert(concat_seqs(a) + concat_seqs(b) =~= concat_seqs(a));
    } else {
        lemma_concat_append(a, b.drop_last());
        assert((a + b).drop_last() =~= a + b.drop_last());
        assert((a + b).last() == b.last());
        assert(concat_seqs(a) + (concat_seqs(b.drop_last()) + b.last()) =~= (concat_seqs(a)
            + concat_seqs(b.drop_last())) + b.last());
    }
}

/// The character sequence with every separator occurrence removed.
pub open spec fn remove_sep(s: Seq<char>, sep: char) -> Seq<char>
    decreases s.len(),
{
    if s.len() == 0 {
        Seq::empty()
    } else if s.last() == sep {
        remove_sep(s.drop_last(), sep)
    } else {
        remove_sep(s.drop_last(), sep).push(s.last())
    }
}

/// A string without the separator is unchanged by removing it.
pub proof fn lemma_remove_sep_absent(s: Seq<char>, sep: char)
    requires
        forall|k: int| 0 <= k < s.len() ==> (#[trigger] s[k]) != sep,
    ensures
        remove_sep(s, sep) == s,
    decreases s.len(),
{
    if s.len() > 0 {
        lemma_remove_sep_absent(s.drop_last(), sep);
        assert(s.drop_last().push(s.last()) =~= s);
    } else {
        assert(remove_sep(s, sep) =~= s);
    }
}

/// Concatenating the pieces of a split gives back the input without its
/// separators.
pub proof fn lemma_split_concat(s: Seq<char>, sep: char)
    ensures
        concat_seqs(split_seq(s, sep)) == remove_sep(s, sep),
    decreases s.len(),
{
    if s.len() == 0 {
        assert(split_seq(s, sep) =~= seq![Seq::<char>::empty()]);
        assert(concat_seqs(seq![Seq::<char>::empty()]) =~= Seq::<char>::empty()) by {
            assert(concat_seqs(Seq::<Seq<char>>::empty()) =~= Seq::<char>::empty());
            assert(seq![Seq::<char>::empty()].drop_last() =~= Seq::<Seq<char>>::empty());
            assert(concat_seqs(seq![Seq::<char>::empty()]) == concat_seqs(
                seq![Seq::<char>::empty()].drop_last(),
            ) + seq![Seq::<char>::empty()].last());
        }
    } else {
        let s0 = s.drop_last();
        let c = s.last();
        lemma_split_concat(s0, sep);
        lemma_split_push(s0, sep, c);
        lemma_split_shape(s0, sep);
        assert(s0.push(c) =~= s);
        let ts = split_seq(s0, sep);
        if c == sep {
            lemma_concat_push(ts, Seq::<char>::empty());
            assert(concat_seqs(ts) + Seq::<char>::empty() =~= concat_seqs(ts));
        } else {
            let ts2 = ts.update(ts.len() - 1, ts.last().push(c));
            assert(ts2.drop_last() =~= ts.drop_last());
            assert(ts2.last() == ts.last().push(c));
            assert(concat_seqs(ts2) == concat_seqs(ts.drop_last()) + ts.last().push(c));
            assert(concat_seqs(ts.drop_last()) + ts.last().push(c) =~= (concat_seqs(
                ts.drop_last(),
            ) + ts.last()).push(c));
        }
    }
}

/// The tokens joined by a single space between neighbours.
pub open spec fn join_spaces(ts: Seq<Seq<char>>) -> Seq<char>
    decreases ts.len(),
{
    if ts.len() == 0 {
        Seq::empty()
    } else if ts.len() == 1 {
        ts.last()
    } else {
        join_spaces(ts.drop_last()) + seq![' '] + ts.last()
    }
}

/// Appending one more token extends the joined form by a space and the token.
pub proof fn lemma_join_push(ts: Seq<Seq<char>>, t: Seq<char>)
    ensures
        ts.len() == 0 ==> join_spaces(ts.push(t)) == t,
        ts.len() > 0 ==> join_spaces(ts.push(t)) == join_spaces(ts) + seq![' '] + t,
{
    assert(ts.push(t).drop_last() =~= ts);
    assert(ts.push(t).last() == t);
}

/// Splitting a character sequence on a separator. The result always has
/// one more piece than the number of separators; pieces may be empty.
pub open spec fn split_seq(s: Seq<char>, sep: char) -> Seq<Seq<char>>
    decreases s.len(),
{
    if s.len() == 0 {
        seq![Seq::<char>::empty()]
    } else {
        let rest = split_seq(s.drop_first(), sep);
        if s[0] == sep {
            seq![Seq::<char>::empty()] + rest
        } else {
            seq![seq![s[0]] + rest[0]] + rest.drop_first()
        }
    }
}

/// A split result is never empty, and its pieces never hold the separator.
pub proof fn lemma_split_shape(s: Seq<char>, sep: char)
    ensures
        split_seq(s, sep).len() >= 1,
        forall|p: int, k: int|
            0 <= p < split_seq(s, sep).len() && 0 <= k < split_seq(s, sep)[p].len()
                ==> #[trigger] split_seq(s, sep)[p][k] != sep,
    decreases s.len(),
{
    if s.len() > 0 {
        lemma_split_shape(s.drop_first(), sep);
    }
}

/// Extending the input by one character either starts a fresh piece (on
/// the separator) or extends the last piece.
pub proof fn lemma_split_push(s: Seq<char>, sep: char, c: char)
    ensures
        c == sep ==> split_seq(s.push(c), sep) == split_seq(s, sep).push(Seq::<char>::empty()),
        c != sep ==> split_seq(s.push(c), sep) == split_seq(s, sep).update(
            split_seq(s, sep).len() - 1,
            split_seq(s, sep).last().push(c),
        ),
    decreases s.len(),
{
    lemma_split_shape(s, sep);
    if s.len() == 0 {
        assert(s.push(c).drop_first() =~= s);
        if c == sep {
            assert(split_seq(s.push(c), sep) =~= split_seq(s, sep).push(Seq::<char>::empty()));
        } else {
            assert(split_seq(s.push(c), sep) =~= split_seq(s, sep).update(
                0,
                split_seq(s, sep).last().push(c),
            ));
        }
    } else {
        lemma_split_push(s.drop_first(), sep, c);
        lemma_split_shape(s.drop_first(), sep);
        assert(s.push(c).drop_first() =~= s.drop_first().push(c));
        let rest = split_seq(s.drop_first(), sep);
        let restc = split_seq(s.drop_first().push(c), sep);
        if c == sep {
            assert(restc == rest.push(Seq::<char>::empty()));
            if s[0] == sep {
                assert(split_seq(s.push(c), sep) =~= split_seq(s, sep).push(
                    Seq::<char>::empty(),
                ));
            } else {
                assert(restc.drop_first() =~= rest.drop_first().push(Seq::<char>::empty()));
                assert(split_seq(s.push(c), sep) =~= split_seq(s, sep).push(
                    Seq::<char>::empty(),
                ));
            }
        } else {
            assert(restc == rest.update(rest.len() - 1, rest.last().push(c)));
            if s[0] == sep {
                assert(split_seq(s.push(c), sep) =~= split_seq(s, sep).update(
                    split_seq(s, sep).len() - 1,
                    split_seq(s, sep).last().push(c),
                ));
            } else {
                if rest.len() == 1 {
                    assert(restc[0] == rest[0].push(c));
                    assert(restc.drop_first() =~= rest.drop_first());
                    assert(split_seq(s.push(c), sep) =~= split_seq(s, sep).update(
                        split_seq(s, sep).len() - 1,
                        split_seq(s, sep).last().push(c),
                    ));
                } else {
                    assert(restc[0] == rest[0]);
                    assert(restc.drop_first() =~= rest.drop_first().update(
                        rest.len() - 2,
                        rest.last().push(c),
                    ));
                    assert(split_seq(s.push(c), sep) =~= split_seq(s, sep).update(
                        split_seq(s, sep).len() - 1,
                        split_seq(s, sep).last().push(c),
                    ));
                }
            }
        }
    }
}

/// ASCII-lowercases a string, character by character.
pub fn to_lower(s: &str) -> (r: String)
    ensures
        r@ == to_lower_seq(s@),
{
    let n = s.unicode_len();
    let mut out = String::new();
    let mut i: usize = 0;
    while i < n
        invariant
            n == s@.len(),
            i <= n,
            out@ == to_lower_seq(s@.take(i as int)),
        decreases n - i,
    {
        let c = s.get_char(i);
        push_char(&mut out, lower_char_exec(c));
        proof {
            assert(s@.take(i + 1) =~= s@.take(i as int).push(s@[i as int]));
            assert(to_lower_seq(s@.take(i + 1)) =~= to_lower_seq(s@.take(i as int)).push(
                lower_char(s@[i as int]),
            ));
        }
        i = i + 1;
    }
    proof {
        assert(s@.take(n as int) =~= s@);
    }
    out
}

/// Relies on `String::pop`: removes exactly the last character, if any.
#[verifier::external_body]
pub fn pop_char(s: &mut String)
    ensures
        old(s)@.len() == 0 ==> final(s)@ == old(s)@,
        old(s)@.len() > 0 ==> final(s)@ == old(s)@.drop_last(),
{
    s.pop();
}

/// A string holding exactly one character.
pub fn char_string(c: char) -> (r: String)
    ensures
        r@ =~= seq![c],
{
    let mut s = String::new();
    push_char(&mut s, c);
    s
}

/// Splits a string on a separator character; pieces may be empty and the
/// result always holds at least one piece.
pub fn split_on(s: &str, sep: char) -> (r: Vec<String>)
    ensures
        r.deep_view() == split_seq(s@, sep),
{
    let n = s.unicode_len();
    let mut out: Vec<String> = Vec::new();
    out.push(String::new());
    let mut i: usize = 0;
    proof {
        assert(out.deep_view() =~= split_seq(s@.take(0), sep));
    }
    while i < n
        invariant
            n == s@.len(),
            i <= n,
            out.deep_view() == split_seq(s@.take(i as int), sep),
        decreases n - i,
    {
        let c = s.get_char(i);
        proof {
            lemma_split_shape(s@.take(i as int), sep);
            lemma_split_push(s@.take(i as int), sep, c);
            assert(s@.take(i + 1) =~= s@.take(i as int).push(s@[i as int]));
        }
        if c == sep {
            out.push(String::new());
            proof {
                assert(out.deep_view() =~= split_seq(s@.take(i + 1), sep));
            }
        } else {
            let last = out.len() - 1;
            let ghost pre = out.deep_view();
            push_char(&mut out[last], c);
            proof {
                assert(out.deep_view() =~= pre.update(pre.len() - 1, pre.last().push(c)));
            }
        }
        i = i + 1;
    }
    proof {
        assert(s@.take(n as int) =~= s@);
    }
    out
}

/// Concatenates the tokens of `ts[start..end]` into one string.
pub fn concat_range(ts: &Vec<String>, start: usize, end: usize) -> (r: String)
    requires
        start <= end <= ts@.len(),
    ensures
        r@ == concat_seqs(ts.deep_view().subrange(start as int, end as int)),
{
    let mut out = String::new();
    let mut i: usize = start;
    proof {
        assert(out@ =~= concat_seqs(ts.deep_view().subrange(start as int, start as int)));
    }
    while i < end
        invariant
            start <= i <= end <= ts@.len(),
            ts.deep_view().len() == ts@.len(),
            out@ == concat_seqs(ts.deep_view().subrange(start as int, i as int)),
        decreases end - i,
    {
        out.append(ts[i].as_str());
        proof {
            lemma_concat_push(ts.deep_view().subrange(start as int, i as int), ts.deep_view()[i as int]);
            assert(ts.deep_view().subrange(start as int, i + 1) =~= ts.deep_view().subrange(
                start as int,
                i as int,
            ).push(ts.deep_view()[i as int]));
        }
        i = i + 1;
    }
    out
}

/// Joins the tokens with single spaces, the display form of a segmentation.
pub fn join_with_spaces(ts: &Vec<String>) -> (r: String)
    ensures
        r@ == join_spaces(ts.deep_view()),
{
    let mut out = String::new();
    let mut i: usize = 0;
    proof {
        assert(ts.deep_view().take(0) =~= Seq::<Seq<char>>::empty());
    }
    while i < ts.len()
        invariant
            i <= ts@.len(),
            ts.deep_view().len() == ts@.len(),
            out@ == join_spaces(ts.deep_view().take(i as int)),
        decreases ts@.len() - i,
    {
        if i > 0 {
            push_char(&mut out, ' ');
        }
        out.append(ts[i].as_str());
        proof {
            lemma_join_push(ts.deep_view().take(i as int), ts.deep_view()[i as int]);
            assert(ts.deep_view().take(i + 1) =~= ts.deep_view().take(i as int).push(
                ts.deep_view()[i as int],
            ));
        }
        i = i + 1;
    }
    proof {
        assert(ts.deep_view().take(ts@.len() as int) =~= ts.deep_view());
    }
    out
}

/// A character the editor accepts into the raw input: an ASCII letter or
/// the explicit break marker.
pub open spec fn is_input_char(c: char) -> bool {
    is_lower_char(c) || is_upper_char(c) || c == '\''
}

/// What sanitizing keeps of a raw line: the accepted characters in their
/// original order, lowercased; everything else dropped.
pub open spec fn sanitize_spec(s: Seq<char>) -> Seq<char>
    decreases s.len(),
{
    if s.len() == 0 {
        Seq::empty()
    } else if is_input_char(s.last()) {
        sanitize_spec(s.drop_last()).push(lower_char(s.last()))
    } else {
        sanitize_spec(s.drop_last())
    }
}

/// Keeps only ASCII letters and the break marker, lowercased: the shape of
/// raw input the engine works on.
pub fn sanitize_input(s: &str) -> (r: String)
    ensures
        r@ == sanitize_spec(s@),
{
    let n = s.unicode_len();
    let mut out = String::new();
    let mut i: usize = 0;
    while i < n
        invariant
            n == s@.len(),
            i <= n,
            out@ == sanitize_spec(s@.take(i as int)),
        decreases n - i,
    {
        let c = s.get_char(i);
        proof {
            assert(s@.take(i + 1).drop_last() =~= s@.take(i as int));
            assert(s@.take(i + 1).last() == s@[i as int]);
        }
        if ('a' <= c && c <= 'z') || ('A' <= c && c <= 'Z') || c == '\'' {
            push_char(&mut out, lower_char_exec(c));
        }
        i = i + 1;
    }
    proof {
        assert(s@.take(n as int) =~= s@);
    }
    out
}

/// ASCII whitespace, the set trimming removes.
pub open spec fn is_space(c: char) -> bool {
    c == ' ' || c == '\t' || c == '\r' || c == '\n'
}

/// Number of whitespace characters at the front.
pub open spec fn leading_spaces(s: Seq<char>) -> int
    decreases s.len(),
{
    if s.len() > 0 && is_space(s[0]) {
        1 + leading_spaces(s.drop_first())
    } else {
        0
    }
}

/// Number of whitespace characters at the back.
pub open spec fn trailing_spaces(s: Seq<char>) -> int
    decreases s.len(),
{
    if s.len() > 0 && is_space(s.last()) {
        1 + trailing_spaces(s.drop_last())
    } else {
        0
    }
}

/// The string without its leading and trailing whitespace.
pub open spec fn trim_spec(s: Seq<char>) -> Seq<char> {
    if leading_spaces(s) == s.len() {
        Seq::empty()
    } else {
        s.subrange(leading_spaces(s), s.len() - trailing_spaces(s))
    }
}

/// The leading-space count is witnessed by a prefix of spaces and a
/// non-space at its end (or the string's end).
proof fn lemma_leading_spaces_from_scan(s: Seq<char>, b: int)
    requires
        0 <= b <= s.len(),
        forall|k: int| 0 <= k < b ==> is_space(#[trigger] s[k]),
        b == s.len() || !is_space(s[b]),
    ensures
        leading_spaces(s) == b,
    decreases s.len(),
{
    if s.len() > 0 && is_space(s[0]) {
        assert(b > 0);
        lemma_leading_spaces_from_scan(s.drop_first(), b - 1);
    }
}

/// The trailing-space count is witnessed likewise from the back.
proof fn lemma_trailing_spaces_from_scan(s: Seq<char>, e: int)
    requires
        0 <= e <= s.len(),
        forall|k: int| e <= k < s.len() ==> is_space(#[trigger] s[k]),
        e == 0 || !is_space(s[e - 1]),
    ensures
        trailing_spaces(s) == s.len() - e,
    decreases s.len(),
{
    if s.len() > 0 && is_space(s.last()) {
        assert(e < s.len());
        lemma_trailing_spaces_from_scan(s.drop_last(), e);
    }
}

/// Decides `is_space`.
fn is_space_exec(c: char) -> (r: bool)
    ensures
        r == is_space(c),
{
    c == ' ' || c == '\t' || c == '\r' || c == '\n'
}

/// Removes leading and trailing ASCII whitespace.
pub fn trim(s: &str) -> (r: String)
    ensures
        r@ == trim_spec(s@),
{
    let n = s.unicode_len();
    let mut b: usize = 0;
    while b < n && is_space_exec(s.get_char(b))
        invariant
            n == s@.len(),
            b <= n,
            forall|k: int| 0 <= k < b ==> is_space(#[trigger] s@[k]),
        decreases n - b,
    {
        b = b + 1;
    }
    if b == n {
        proof {
            lemma_leading_spaces_from_scan(s@, n as int);
        }
        return String::new();
    }
    let mut e: usize = n;
    while e > b && is_space_exec(s.get_char(e - 1))
        invariant
            n == s@.len(),
            b <= e <= n,
            b < n,
            !is_space(s@[b as int]),
            forall|k: int| e <= k < n ==> is_space(#[trigger] s@[k]),
        decreases e,
    {
        e = e - 1;
    }
    proof {
        lemma_leading_spaces_from_scan(s@, b as int);
        lemma_trailing_spaces_from_scan(s@, e as int);
    }
    let mut out = String::new();
    let mut i: usize = b;
    while i < e
        invariant
            b <= i <= e <= n,
            n == s@.len(),
            out@ == s@.subrange(b as int, i as int),
        decreases e - i,
    {
        push_char(&mut out, s.get_char(i));
        proof {
            assert(s@.subrange(b as int, i + 1) =~= s@.subrange(b as int, i as int).push(
                s@[i as int],
            ));
        }
        i = i + 1;
    }
    out
}

/// Decides whether `p` is a prefix of `s`.
pub fn str_starts_with(s: &str, p: &str) -> (r: bool)
    ensures
        r == p@.is_prefix_of(s@),
{
    let n = s.unicode_len();
    let m = p.unicode_len();
    if m > n {
        return false;
    }
    let mut k: usize = 0;
    while k < m
        invariant
            m <= n,
            n == s@.len(),
            m == p@.len(),
            k <= m,
            forall|q: int| 0 <= q < k ==> s@[q] == #[trigger] p@[q],
        decreases m - k,
    {
        let ca = s.get_char(k);
        let cb = p.get_char(k);
        if !((ca as u32) == (cb as u32)) {
            proof {
                assert(s@.subrange(0, m as int)[k as int] != p@[k as int]);
            }
            return false;
        }
        k = k + 1;
    }
    proof {
        assert(s@.subrange(0, m as int) =~= p@);
    }
    true
}

/// A decimal digit.
pub open spec fn is_digit(c: char) -> bool {
    '0' <= c && c <= '9'
}

/// The value of a digit string, most significant first.
pub open spec fn digits_val(s: Seq<char>) -> int
    decreases s.len(),
{
    if s.len() == 0 {
        0
    } else {
        digits_val(s.drop_last()) * 10 + ((s.last() as u8) - 48)
    }
}

/// Digit strings have non-negative values that only grow with length.
proof fn lemma_digits_val_prefix(s: Seq<char>, i: int)
    requires
        0 <= i <= s.len(),
        forall|k: int| 0 <= k < s.len() ==> is_digit(#[trigger] s[k]),
    ensures
        0 <= digits_val(s.take(i)) <= digits_val(s),
    decreases s.len() - i,
{
    if i == s.len() {
        lemma_digits_val_nonneg(s);
        assert(s.take(i) =~= s);
    } else {
        lemma_digits_val_prefix(s, i + 1);
        assert(s.take(i + 1).drop_last() =~= s.take(i));
        assert(s.take(i + 1).last() == s[i]);
        lemma_digits_val_nonneg(s.take(i));
    }
}

/// A digit string's value is never negative.
proof fn lemma_digits_val_nonneg(s: Seq<char>)
    requires
        forall|k: int| 0 <= k < s.len() ==> is_digit(#[trigger] s[k]),
    ensures
        digits_val(s) >= 0,
    decreases s.len(),
{
    if s.len() > 0 {
        assert(forall|k: int|
            0 <= k < s.drop_last().len() ==> is_digit(#[trigger] s.drop_last()[k]));
        lemma_digits_val_nonneg(s.drop_last());
    }
}

/// A non-empty all-digit string.
pub open spec fn all_digits(body: Seq<char>) -> bool {
    body.len() > 0 && (forall|k: int| 0 <= k < body.len() ==> is_digit(#[trigger] body[k]))
}

/// The digit part of a signed decimal literal: everything after an
/// optional sign.
pub open spec fn sign_body(s: Seq<char>) -> Seq<char> {
    if s.len() > 0 && (s[0] == '+' || s[0] == '-') {
        s.drop_first()
    } else {
        s
    }
}

/// What parsing a signed decimal integer yields: an optional sign, then
/// at least one digit and nothing else, with the value representable.
/// This is the behaviour of Rust's integer parsing for `i32`.
pub open spec fn parse_i32_spec(s: Seq<char>) -> Option<i32> {
    let body = sign_body(s);
    let neg = s.len() > 0 && s[0] == '-';
    if all_digits(body) {
        let v = if neg {
            -digits_val(body)
        } else {
            digits_val(body)
        };
        if i32::MIN <= v <= i32::MAX {
            Some(v as i32)
        } else {
            None
        }
    } else {
        None
    }
}

/// An input whose digit part is broken does not parse.
proof fn lemma_parse_none(s: Seq<char>)
    requires
        !all_digits(sign_body(s)),
    ensures
        parse_i32_spec(s) is None,
{
}

/// Parses a signed decimal `i32`, exactly as `parse_i32_spec` says.
pub fn parse_i32(s: &str) -> (r: Option<i32>)
    ensures
        r == parse_i32_spec(s@),
{
    let n = s.unicode_len();
    if n == 0 {
        return None;
    }
    let first = s.get_char(0);
    let neg = first == '-';
    let start: usize = if first == '+' || first == '-' {
        1
    } else {
        0
    };
    let ghost body = sign_body(s@);
    proof {
        assert(body =~= s@.subrange(start as int, n as int));
    }
    if start == n {
        proof {
            lemma_parse_none(s@);
        }
        return None;
    }
    let mut acc: i64 = 0;
    let mut i: usize = start;
    while i < n
        invariant
            start <= i <= n,
            n == s@.len(),
            start < n,
            body == s@.subrange(start as int, n as int),
            body == sign_body(s@),
            neg == (s@[0] == '-'),
            forall|k: int| start <= k < i ==> is_digit(#[trigger] s@[k]),
            acc == digits_val(body.take(i - start)),
            0 <= acc <= 0x8000_0000,
        decreases n - i,
    {
        let c = s.get_char(i);
        if !('0' <= c && c <= '9') {
            proof {
                assert(!is_digit(body[i - start]));
                assert(!all_digits(body));
                lemma_parse_none(s@);
            }
            return None;
        }
        let d: i64 = ((c as u8) - 48) as i64;
        proof {
            assert(body.take(i - start + 1).drop_last() =~= body.take(i - start));
            assert(body.take(i - start + 1).last() == body[i - start]);
        }
        acc = acc * 10 + d;
        if acc > 0x8000_0000i64 {
            proof {
                if all_digits(body) {
                    lemma_digits_val_prefix(body, i - start + 1);
                    assert(digits_val(body) >= acc);
                    assert(digits_val(body) > 0x8000_0000);
                } else {
                    lemma_parse_none(s@);
                }
            }
            return None;
        }
        i = i + 1;
    }
    proof {
        assert(body.take(n - start) =~= body);
        assert(all_digits(body)) by {
            assert forall|k: int| 0 <= k < body.len() implies is_digit(#[trigger] body[k]) by {
                assert(body[k] == s@[start + k]);
            }
        }
    }
    if neg {
        Some((-acc) as i32)
    } else {
        if acc > 0x7fff_ffffi64 {
            return None;
        }
        Some(acc as i32)
    }
}

/// `i64` addition clamped at the representable bounds.
pub open spec fn sat_add_i64_spec(a: i64, b: i64) -> i64 {
    if a + b > i64::MAX {
        i64::MAX
    } else if a + b < i64::MIN {
        i64::MIN
    } else {
        (a + b) as i64
    }
}

/// Saturating `i64` addition.
pub fn sat_add_i64(a: i64, b: i64) -> (r: i64)
    ensures
        r == sat_add_i64_spec(a, b),
{
    match a.checked_add(b) {
        Some(v) => v,
        None => if b >= 0 {
            i64::MAX
        } else {
            i64::MIN
        },
    }
}

} // verus!
