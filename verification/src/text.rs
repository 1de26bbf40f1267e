//! Character-level text primitives shared by the parsers of this crate.
//!
//! Every function here works on sequences of characters.  The kernel text this
//! crate reads is split into lines, whitespace-separated words and
//! delimiter-separated fields; each notion is defined once as a spec function
//! and implemented by a verified scanner.

use vstd::prelude::*;

verus! {

/// `String::push` appends one character to the end of the string.
pub assume_specification[ String::push ](s: &mut String, ch: char)
    ensures
        final(s)@ == old(s)@.push(ch),
;

/// A white-space character: one of the code points that carry the Unicode
/// `White_Space` property.
pub open spec fn is_space(c: char) -> bool {
    ||| ('\u{9}' <= c && c <= '\u{d}')
    ||| c == ' '
    ||| c == '\u{85}'
    ||| c == '\u{a0}'
    ||| c == '\u{1680}'
    ||| ('\u{2000}' <= c && c <= '\u{200a}')
    ||| c == '\u{2028}'
    ||| c == '\u{2029}'
    ||| c == '\u{202f}'
    ||| c == '\u{205f}'
    ||| c == '\u{3000}'
}

/// The views of a vector of character vectors.
pub open spec fn seqs(v: Seq<Vec<char>>) -> Seq<Seq<char>> {
    Seq::new(v.len(), |i: int| v[i]@)
}

/// The views of a vector of strings.
pub open spec fn strs(v: Seq<String>) -> Seq<Seq<char>> {
    Seq::new(v.len(), |i: int| v[i]@)
}

/// Length of the longest prefix of `s` that holds no white space.
pub open spec fn word_len(s: Seq<char>) -> nat
    decreases s.len(),
{
    if s.len() == 0 || is_space(s[0]) {
        0
    } else {
        1 + word_len(s.drop_first())
    }
}

/// The maximal runs of non-white-space characters of `s`, in order.
pub open spec fn words(s: Seq<char>) -> Seq<Seq<char>>
    decreases s.len(),
    via words_decreases
{
    if s.len() == 0 {
        Seq::empty()
    } else if is_space(s[0]) {
        words(s.drop_first())
    } else {
        seq![s.take(word_len(s) as int)] + words(s.skip(word_len(s) as int))
    }
}

#[via_fn]
proof fn words_decreases(s: Seq<char>) {
    lemma_word_len(s);
}

/// Length of the longest prefix of `s` that holds none of `delims`.
pub open spec fn field_len(s: Seq<char>, delims: Seq<char>) -> nat
    decreases s.len(),
{
    if s.len() == 0 || delims.contains(s[0]) {
        0
    } else {
        1 + field_len(s.drop_first(), delims)
    }
}

/// The pieces of `s` between occurrences of any character of `delims`.  A
/// text with `n` delimiters has `n + 1` pieces, some of which may be empty.
pub open spec fn split_on(s: Seq<char>, delims: Seq<char>) -> Seq<Seq<char>>
    decreases s.len(),
    via split_on_decreases
{
    if field_len(s, delims) == s.len() {
        seq![s]
    } else {
        seq![s.take(field_len(s, delims) as int)] + split_on(
            s.skip(field_len(s, delims) as int + 1),
            delims,
        )
    }
}

#[via_fn]
proof fn split_on_decreases(s: Seq<char>, delims: Seq<char>) {
    lemma_field_len(s, delims);
}

/// `s` without one trailing carriage return.
pub open spec fn strip_cr(s: Seq<char>) -> Seq<char> {
    if s.len() > 0 && s.last() == '\r' {
        s.drop_last()
    } else {
        s
    }
}

/// The lines of `s`.  A line ends at a line feed, which is dropped together
/// with a carriage return directly before it.  Text after the last line feed
/// is a line of its own unless it is empty.
pub open spec fn lines(s: Seq<char>) -> Seq<Seq<char>>
    decreases s.len(),
    via lines_decreases
{
    if s.len() == 0 {
        Seq::empty()
    } else if field_len(s, seq!['\n']) == s.len() {
        seq![s]
    } else {
        seq![strip_cr(s.take(field_len(s, seq!['\n']) as int))] + lines(
            s.skip(field_len(s, seq!['\n']) as int + 1),
        )
    }
}

#[via_fn]
proof fn lines_decreases(s: Seq<char>) {
    lemma_field_len(s, seq!['\n']);
}

/// `s` without its leading white space.
pub open spec fn trim_start(s: Seq<char>) -> Seq<char>
    decreases s.len(),
{
    if s.len() > 0 && is_space(s[0]) {
        trim_start(s.drop_first())
    } else {
        s
    }
}

/// `s` without its trailing white space.
pub open spec fn trim_end(s: Seq<char>) -> Seq<char>
    decreases s.len(),
{
    if s.len() > 0 && is_space(s.last()) {
        trim_end(s.drop_last())
    } else {
        s
    }
}

/// `s` without leading and trailing white space.
pub open spec fn trim(s: Seq<char>) -> Seq<char> {
    trim_end(trim_start(s))
}

/// `s` without any trailing occurrences of `c`.
pub open spec fn strip_trailing(s: Seq<char>, c: char) -> Seq<char>
    decreases s.len(),
{
    if s.len() > 0 && s.last() == c {
        strip_trailing(s.drop_last(), c)
    } else {
        s
    }
}

/// `word_len` stays inside the text, covers no white space and stops at white
/// space or at the end.
pub proof fn lemma_word_len(s: Seq<char>)
    ensures
        word_len(s) <= s.len(),
        s.len() > 0 && !is_space(s[0]) ==> word_len(s) >= 1,
        forall|k: int| 0 <= k < word_len(s) ==> !is_space(#[trigger] s[k]),
        word_len(s) < s.len() ==> is_space(s[word_len(s) as int]),
    decreases s.len(),
{
    if s.len() == 0 || is_space(s[0]) {
    } else {
        let t = s.drop_first();
        lemma_word_len(t);
        assert forall|k: int| 0 <= k < word_len(s) implies !is_space(#[trigger] s[k]) by {
            if k > 0 {
                assert(s[k] == t[k - 1]);
            }
        }
        if word_len(s) < s.len() {
            assert(s[word_len(s) as int] == t[word_len(t) as int]);
        }
    }
}

/// A prefix free of white space that ends at white space or at the end of the
/// text is the first word's extent.
pub proof fn lemma_word_len_is(s: Seq<char>, n: nat)
    requires
        n <= s.len(),
        forall|k: int| 0 <= k < n ==> !is_space(#[trigger] s[k]),
        n < s.len() ==> is_space(s[n as int]),
    ensures
        word_len(s) == n,
    decreases n,
{
    if n == 0 {
    } else {
        let t = s.drop_first();
        assert(!is_space(s[0]));
        assert forall|k: int| 0 <= k < n - 1 implies !is_space(#[trigger] t[k]) by {
            assert(t[k] == s[k + 1]);
        }
        if n - 1 < t.len() {
            assert(t[n - 1] == s[n as int]);
        }
        lemma_word_len_is(t, (n - 1) as nat);
    }
}

/// `field_len` stays inside the text, covers no delimiter and stops at a
/// delimiter or at the end.
pub proof fn lemma_field_len(s: Seq<char>, delims: Seq<char>)
    ensures
        field_len(s, delims) <= s.len(),
        forall|k: int| 0 <= k < field_len(s, delims) ==> !delims.contains(#[trigger] s[k]),
        field_len(s, delims) < s.len() ==> delims.contains(s[field_len(s, delims) as int]),
    decreases s.len(),
{
    if s.len() == 0 || delims.contains(s[0]) {
    } else {
        let t = s.drop_first();
        lemma_field_len(t, delims);
        assert forall|k: int| 0 <= k < field_len(s, delims) implies !delims.contains(
            #[trigger] s[k],
        ) by {
            if k > 0 {
                assert(s[k] == t[k - 1]);
            }
        }
        if field_len(s, delims) < s.len() {
            assert(s[field_len(s, delims) as int] == t[field_len(t, delims) as int]);
        }
    }
}

/// A prefix free of delimiters that ends at a delimiter or at the end of the
/// text is the first field's extent.
pub proof fn lemma_field_len_is(s: Seq<char>, delims: Seq<char>, n: nat)
    requires
        n <= s.len(),
        forall|k: int| 0 <= k < n ==> !delims.contains(#[trigger] s[k]),
        n < s.len() ==> delims.contains(s[n as int]),
    ensures
        field_len(s, delims) == n,
    decreases n,
{
    if n == 0 {
    } else {
        let t = s.drop_first();
        assert(!delims.contains(s[0]));
        assert forall|k: int| 0 <= k < n - 1 implies !delims.contains(#[trigger] t[k]) by {
            assert(t[k] == s[k + 1]);
        }
        if n - 1 < t.len() {
            assert(t[n - 1] == s[n as int]);
        }
        lemma_field_len_is(t, delims, (n - 1) as nat);
    }
}

/// Whether `c` is a white-space character.
pub fn is_whitespace(c: char) -> (b: bool)
    ensures
        b == is_space(c),
{
    ('\u{9}' <= c && c <= '\u{d}') || c == ' ' || c == '\u{85}' || c == '\u{a0}' || c
        == '\u{1680}' || ('\u{2000}' <= c && c <= '\u{200a}') || c == '\u{2028}' || c
        == '\u{2029}' || c == '\u{202f}' || c == '\u{205f}' || c == '\u{3000}'
}

/// The characters of `s`, in order.
pub fn chars_of(s: &str) -> (out: Vec<char>)
    ensures
        out@ == s@,
{
    let mut out: Vec<char> = Vec::new();
    for c in it: s.chars()
        invariant
            out@ == it.seq().take(it.index() as int),
    {
        out.push(c);
    }
    out
}

/// The string whose characters are `chars`.
pub fn string_of(chars: &Vec<char>) -> (out: String)
    ensures
        out@ == chars@,
{
    let mut out = String::new();
    let mut i: usize = 0;
    while i < chars.len()
        invariant
            i <= chars.len(),
            out@ == chars@.take(i as int),
        decreases chars.len() - i,
    {
        out.push(chars[i]);
        i += 1;
    }
    assert(chars@.take(chars.len() as int) =~= chars@);
    out
}

/// A copy of `s[from..to]`.
pub fn sub_vec(s: &Vec<char>, from: usize, to: usize) -> (out: Vec<char>)
    requires
        from <= to <= s.len(),
    ensures
        out@ == s@.subrange(from as int, to as int),
{
    let mut out: Vec<char> = Vec::new();
    let mut i: usize = from;
    while i < to
        invariant
            from <= i <= to <= s.len(),
            out@ == s@.subrange(from as int, i as int),
        decreases to - i,
    {
        out.push(s[i]);
        i += 1;
    }
    out
}

/// Whether `c` occurs in `s`.
pub fn contains_char(s: &Vec<char>, c: char) -> (b: bool)
    ensures
        b == s@.contains(c),
{
    let mut i: usize = 0;
    while i < s.len()
        invariant
            i <= s.len(),
            forall|k: int| 0 <= k < i ==> s@[k] != c,
        decreases s.len() - i,
    {
        if s[i] == c {
            return true;
        }
        i += 1;
    }
    false
}

/// Splits `s` into its white-space-separated words.
pub fn split_words(s: &Vec<char>) -> (out: Vec<Vec<char>>)
    ensures
        seqs(out@) == words(s@),
{
    let mut out: Vec<Vec<char>> = Vec::new();
    let mut i: usize = 0;
    proof {
        assert(s@.skip(0) =~= s@);
        assert(seqs(out@) + words(s@) =~= words(s@));
    }
    while i < s.len()
        invariant
            i <= s.len(),
            seqs(out@) + words(s@.skip(i as int)) == words(s@),
        decreases s.len() - i,
    {
        let ghost rest = s@.skip(i as int);
        if is_whitespace(s[i]) {
            assert(rest.drop_first() =~= s@.skip(i + 1));
            i += 1;
        } else {
            let start = i;
            let mut j: usize = i + 1;
            while j < s.len() && !is_whitespace(s[j])
                invariant
                    start < j <= s.len(),
                    forall|k: int| start <= k < j ==> !is_space(#[trigger] s@[k]),
                decreases s.len() - j,
            {
                j += 1;
            }
            let word = sub_vec(s, start, j);
            proof {
                let n = (j - start) as nat;
                assert forall|k: int| 0 <= k < n implies !is_space(#[trigger] rest[k]) by {
                    assert(rest[k] == s@[start + k]);
                }
                lemma_word_len_is(rest, n);
                assert(rest.take(n as int) =~= s@.subrange(start as int, j as int));
                assert(rest.skip(n as int) =~= s@.skip(j as int));
                assert(seqs(out@.push(word)) =~= seqs(out@) + seq![word@]);
                assert(words(rest) == seq![rest.take(n as int)] + words(rest.skip(n as int)));
                assert(seqs(out@) + (seq![word@] + words(s@.skip(j as int))) =~= (seqs(out@)
                    + seq![word@]) + words(s@.skip(j as int)));
            }
            out.push(word);
            i = j;
        }
    }
    assert(s@.skip(s.len() as int).len() == 0);
    assert(seqs(out@) + Seq::<Seq<char>>::empty() =~= seqs(out@));
    out
}

/// Splits `s` at every occurrence of a character of `delims`.
pub fn split_fields(s: &Vec<char>, delims: &Vec<char>) -> (out: Vec<Vec<char>>)
    ensures
        seqs(out@) == split_on(s@, delims@),
{
    let mut out: Vec<Vec<char>> = Vec::new();
    let mut i: usize = 0;
    proof {
        assert(s@.skip(0) =~= s@);
        assert(seqs(out@) + split_on(s@, delims@) =~= split_on(s@, delims@));
    }
    loop
        invariant_except_break
            i <= s.len(),
            seqs(out@) + split_on(s@.skip(i as int), delims@) == split_on(s@, delims@),
        ensures
            seqs(out@) == split_on(s@, delims@),
        decreases s.len() - i,
    {
        let ghost rest = s@.skip(i as int);
        let start = i;
        let mut j: usize = i;
        while j < s.len() && !contains_char(delims, s[j])
            invariant
                start <= j <= s.len(),
                forall|k: int| start <= k < j ==> !delims@.contains(#[trigger] s@[k]),
            decreases s.len() - j,
        {
            j += 1;
        }
        let field = sub_vec(s, start, j);
        proof {
            let n = (j - start) as nat;
            assert forall|k: int| 0 <= k < n implies !delims@.contains(#[trigger] rest[k]) by {
                assert(rest[k] == s@[start + k]);
            }
            if n < rest.len() {
                assert(rest[n as int] == s@[j as int]);
            }
            lemma_field_len_is(rest, delims@, n);
            assert(rest.take(n as int) =~= s@.subrange(start as int, j as int));
            assert(seqs(out@.push(field)) =~= seqs(out@) + seq![field@]);
        }
        out.push(field);
        if j == s.len() {
            proof {
                assert(rest.take(rest.len() as int) =~= rest);
            }
            break ;
        }
        proof {
            let n = (j - start) as nat;
            assert(rest.skip(n as int + 1) =~= s@.skip(j + 1));
        }
        i = j + 1;
    }
    out
}

/// Whether `c` is one of the delimiters in the one-element list `[d]`.
pub proof fn lemma_single_delim(c: char, d: char)
    ensures
        seq![d].contains(c) <==> c == d,
{
    if c == d {
        assert(seq![d][0] == c);
    }
}

/// Splitting always yields at least one piece.
pub proof fn lemma_split_on_nonempty(s: Seq<char>, delims: Seq<char>)
    ensures
        split_on(s, delims).len() >= 1,
        split_on(s, delims)[0] == s.take(field_len(s, delims) as int),
{
    lemma_field_len(s, delims);
    if field_len(s, delims) == s.len() {
        assert(s.take(s.len() as int) =~= s);
    }
}

/// Splits `s` into its lines.
pub fn split_lines(s: &Vec<char>) -> (out: Vec<Vec<char>>)
    ensures
        seqs(out@) == lines(s@),
{
    let mut out: Vec<Vec<char>> = Vec::new();
    let mut i: usize = 0;
    proof {
        assert(s@.skip(0) =~= s@);
        assert(seqs(out@) + lines(s@) =~= lines(s@));
    }
    while i < s.len()
        invariant
            i <= s.len(),
            seqs(out@) + lines(s@.skip(i as int)) == lines(s@),
        decreases s.len() - i,
    {
        let ghost rest = s@.skip(i as int);
        let ghost nl = seq!['\n'];
        let start = i;
        let mut j: usize = i;
        while j < s.len() && s[j] != '\n'
            invariant
                start <= j <= s.len(),
                forall|k: int| start <= k < j ==> #[trigger] s@[k] != '\n',
            decreases s.len() - j,
        {
            j += 1;
        }
        proof {
            let n = (j - start) as nat;
            assert forall|k: int| 0 <= k < n implies !nl.contains(#[trigger] rest[k]) by {
                assert(rest[k] == s@[start + k]);
                lemma_single_delim(rest[k], '\n');
            }
            if n < rest.len() {
                assert(rest[n as int] == s@[j as int]);
                lemma_single_delim(rest[n as int], '\n');
            }
            lemma_field_len_is(rest, nl, n);
            assert(rest.take(n as int) =~= s@.subrange(start as int, j as int));
        }
        if j == s.len() {
            let line = sub_vec(s, start, j);
            proof {
                assert(rest.take(rest.len() as int) =~= rest);
                assert(seqs(out@.push(line)) =~= seqs(out@) + seq![line@]);
                assert(s@.skip(j as int).len() == 0);
                assert(seq![line@] + lines(s@.skip(j as int)) =~= seq![line@]);
            }
            out.push(line);
            i = j;
        } else {
            let end = if j > start && s[j - 1] == '\r' {
                j - 1
            } else {
                j
            };
            let line = sub_vec(s, start, end);
            proof {
                let n = (j - start) as nat;
                let raw = rest.take(n as int);
                if j > start {
                    assert(raw.last() == s@[j - 1]);
                }
                assert(strip_cr(raw) =~= line@);
                assert(rest.skip(n as int + 1) =~= s@.skip(j + 1));
                assert(seqs(out@.push(line)) =~= seqs(out@) + seq![line@]);
                assert(seqs(out@) + (seq![line@] + lines(s@.skip(j + 1))) =~= (seqs(out@)
                    + seq![line@]) + lines(s@.skip(j + 1)));
            }
            out.push(line);
            i = j + 1;
        }
    }
    assert(s@.skip(s.len() as int).len() == 0);
    assert(seqs(out@) + Seq::<Seq<char>>::empty() =~= seqs(out@));
    out
}

/// Dropping `k` leading white-space characters that are followed by none.
pub proof fn lemma_trim_start_is(s: Seq<char>, k: nat)
    requires
        k <= s.len(),
        forall|i: int| 0 <= i < k ==> is_space(#[trigger] s[i]),
        k < s.len() ==> !is_space(s[k as int]),
    ensures
        trim_start(s) == s.skip(k as int),
    decreases k,
{
    if k == 0 {
        assert(s.skip(0) =~= s);
    } else {
        let t = s.drop_first();
        assert(is_space(s[0]));
        assert forall|i: int| 0 <= i < k - 1 implies is_space(#[trigger] t[i]) by {
            assert(t[i] == s[i + 1]);
        }
        if k - 1 < t.len() {
            assert(t[k - 1] == s[k as int]);
        }
        lemma_trim_start_is(t, (k - 1) as nat);
        assert(t.skip(k - 1) =~= s.skip(k as int));
    }
}

/// Keeping the first `m` characters where only white space follows and the
/// last kept character is none.
pub proof fn lemma_trim_end_is(s: Seq<char>, m: nat)
    requires
        m <= s.len(),
        forall|i: int| m <= i < s.len() ==> is_space(#[trigger] s[i]),
        m > 0 ==> !is_space(s[m - 1]),
    ensures
        trim_end(s) == s.take(m as int),
    decreases s.len() - m,
{
    if m == s.len() {
        assert(s.take(m as int) =~= s);
    } else {
        let t = s.drop_last();
        assert(is_space(s.last()));
        assert forall|i: int| m <= i < t.len() implies is_space(#[trigger] t[i]) by {
            assert(t[i] == s[i]);
        }
        if m > 0 {
            assert(t[m - 1] == s[m - 1]);
        }
        lemma_trim_end_is(t, m);
        assert(t.take(m as int) =~= s.take(m as int));
    }
}

/// Keeping the first `m` characters where only `c` follows and the last kept
/// character is another.
pub proof fn lemma_strip_trailing_is(s: Seq<char>, c: char, m: nat)
    requires
        m <= s.len(),
        forall|i: int| m <= i < s.len() ==> #[trigger] s[i] == c,
        m > 0 ==> s[m - 1] != c,
    ensures
        strip_trailing(s, c) == s.take(m as int),
    decreases s.len() - m,
{
    if m == s.len() {
        assert(s.take(m as int) =~= s);
    } else {
        let t = s.drop_last();
        assert(s.last() == c);
        assert forall|i: int| m <= i < t.len() implies #[trigger] t[i] == c by {
            assert(t[i] == s[i]);
        }
        if m > 0 {
            assert(t[m - 1] == s[m - 1]);
        }
        lemma_strip_trailing_is(t, c, m);
        assert(t.take(m as int) =~= s.take(m as int));
    }
}

/// `s` without leading and trailing white space.
pub fn trimmed(s: &Vec<char>) -> (out: Vec<char>)
    ensures
        out@ == trim(s@),
{
    let mut start: usize = 0;
    while start < s.len() && is_whitespace(s[start])
        invariant
            start <= s.len(),
            forall|i: int| 0 <= i < start ==> is_space(#[trigger] s@[i]),
        decreases s.len() - start,
    {
        start += 1;
    }
    let mut end: usize = s.len();
    while end > start && is_whitespace(s[end - 1])
        invariant
            start <= end <= s.len(),
            forall|i: int| end <= i < s.len() ==> is_space(#[trigger] s@[i]),
        decreases end,
    {
        end -= 1;
    }
    proof {
        lemma_trim_start_is(s@, start as nat);
        let t = s@.skip(start as int);
        let m = (end - start) as nat;
        assert forall|i: int| m <= i < t.len() implies is_space(#[trigger] t[i]) by {
            assert(t[i] == s@[start + i]);
        }
        if m > 0 {
            assert(t[m - 1] == s@[end - 1]);
        }
        lemma_trim_end_is(t, m);
        assert(t.take(m as int) =~= s@.subrange(start as int, end as int));
    }
    sub_vec(s, start, end)
}

/// `s` without any trailing occurrences of `c`.
pub fn without_trailing(s: &Vec<char>, c: char) -> (out: Vec<char>)
    ensures
        out@ == strip_trailing(s@, c),
{
    let mut end: usize = s.len();
    while end > 0 && s[end - 1] == c
        invariant
            end <= s.len(),
            forall|i: int| end <= i < s.len() ==> #[trigger] s@[i] == c,
        decreases end,
    {
        end -= 1;
    }
    proof {
        lemma_strip_trailing_is(s@, c, end as nat);
        assert(s@.take(end as int) =~= s@.subrange(0, end as int));
    }
    sub_vec(s, 0, end)
}

/// Whether `p` occurs in `s` at offset `i`.
pub open spec fn occurs_at(s: Seq<char>, p: Seq<char>, i: int) -> bool {
    0 <= i && i + p.len() <= s.len() && s.subrange(i, i + p.len()) == p
}

/// Whether `p` occurs somewhere in `s`.  The empty text occurs in every text.
pub open spec fn contains_sub(s: Seq<char>, p: Seq<char>) -> bool {
    exists|i: int| occurs_at(s, p, i)
}

/// Whether `s` begins with `p`.
pub open spec fn starts_with(s: Seq<char>, p: Seq<char>) -> bool {
    occurs_at(s, p, 0)
}

/// Whether `p` occurs in `s` at offset `i`.
pub fn matches_at(s: &Vec<char>, p: &Vec<char>, i: usize) -> (b: bool)
    ensures
        b == occurs_at(s@, p@, i as int),
{
    if p.len() > s.len() || i > s.len() - p.len() {
        return false;
    }
    let mut k: usize = 0;
    while k < p.len()
        invariant
            k <= p.len(),
            i + p.len() <= s.len(),
            forall|m: int| 0 <= m < k ==> s@[i + m] == p@[m],
        decreases p.len() - k,
    {
        if s[i + k] != p[k] {
            proof {
                let sub = s@.subrange(i as int, i + p.len());
                assert(sub[k as int] == s@[i + k]);
            }
            return false;
        }
        k += 1;
    }
    assert(s@.subrange(i as int, i + p.len()) =~= p@);
    true
}

/// Whether `s` begins with `p`.
pub fn has_prefix(s: &Vec<char>, p: &Vec<char>) -> (b: bool)
    ensures
        b == starts_with(s@, p@),
{
    matches_at(s, p, 0)
}

/// What follows the prefix `p` in `s`, if `s` begins with `p`.
pub fn after_prefix(s: &Vec<char>, p: &Vec<char>) -> (out: Option<Vec<char>>)
    ensures
        out is Some == starts_with(s@, p@),
        out is Some ==> out->0@ == s@.skip(p@.len() as int),
{
    if matches_at(s, p, 0) {
        let rest = sub_vec(s, p.len(), s.len());
        assert(s@.subrange(p@.len() as int, s@.len() as int) =~= s@.skip(p@.len() as int));
        Some(rest)
    } else {
        None
    }
}

/// Whether `p` occurs somewhere in `s`.
pub fn contains(s: &Vec<char>, p: &Vec<char>) -> (b: bool)
    ensures
        b == contains_sub(s@, p@),
{
    if p.len() > s.len() {
        return false;
    }
    let last: usize = s.len() - p.len();
    let mut i: usize = 0;
    loop
        invariant
            i <= last,
            last == s.len() - p.len(),
            forall|k: int| 0 <= k < i ==> !occurs_at(s@, p@, k),
        decreases last - i,
    {
        if matches_at(s, p, i) {
            return true;
        }
        if i == last {
            return false;
        }
        i += 1;
    }
}

/// Whether `a` and `b` hold the same characters.
pub fn same_text(a: &Vec<char>, b: &Vec<char>) -> (eq: bool)
    ensures
        eq == (a@ == b@),
{
    if a.len() != b.len() {
        return false;
    }
    let mut i: usize = 0;
    while i < a.len()
        invariant
            i <= a.len(),
            a.len() == b.len(),
            forall|k: int| 0 <= k < i ==> a@[k] == b@[k],
        decreases a.len() - i,
    {
        if a[i] != b[i] {
            return false;
        }
        i += 1;
    }
    assert(a@ =~= b@);
    true
}

/// `items` written one after another with `sep` between neighbours.
pub open spec fn join(items: Seq<Seq<char>>, sep: Seq<char>) -> Seq<char>
    decreases items.len(),
{
    if items.len() == 0 {
        Seq::empty()
    } else if items.len() == 1 {
        items[0]
    } else {
        join(items.drop_last(), sep) + sep + items.last()
    }
}

/// Appends the characters of `s` to `buf`.
pub fn append_str(buf: &mut Vec<char>, s: &str)
    ensures
        final(buf)@ == old(buf)@ + s@,
{
    let ghost before = buf@;
    for c in it: s.chars()
        invariant
            it.seq() == s@,
            buf@ == before + it.seq().take(it.index() as int),
    {
        proof {
            let k = it.index() as int;
            assert(before + it.seq().take(k + 1) =~= (before + it.seq().take(k)).push(c));
        }
        buf.push(c);
    }
    assert(s@.take(s@.len() as int) =~= s@);
}

} // verus!
