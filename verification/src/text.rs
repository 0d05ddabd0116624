//! Verified text utilities: substring search, whitespace tokenizing, line
//! splitting, trimming, and decimal conversion.  Everything here is stated
//! over `Seq<char>` views of the strings involved.

use vstd::prelude::*;
use vstd::string::*;

verus! {

/// A character the tokenizer and trimmer treat as blank space: the
/// Unicode white-space set, as char's documentation lists it.  Carriage
/// returns count, so Windows line endings need no special case.
pub open spec fn is_ws(c: char) -> bool {
    let u = c as u32;
    u == 0x09 || u == 0x0A || u == 0x0B || u == 0x0C || u == 0x0D || u == 0x20 || u == 0x85
        || u == 0xA0 || u == 0x1680 || (0x2000 <= u && u <= 0x200A) || u == 0x2028 || u == 0x2029
        || u == 0x202F || u == 0x205F || u == 0x3000
}

/// `needle` occurs as a contiguous run somewhere inside `hay`.
pub open spec fn contains_seq(hay: Seq<char>, needle: Seq<char>) -> bool {
    exists|i: int|
        0 <= i && i + needle.len() <= hay.len() && #[trigger] hay.subrange(
            i,
            i + needle.len() as int,
        ) == needle
}

/// Whether `needle` matches `hay` starting at position `i`.
fn match_at(hay: &str, needle: &str, i: usize) -> (r: bool)
    requires
        i + needle@.len() <= hay@.len(),
    ensures
        r == (hay@.subrange(i as int, i as int + needle@.len() as int) == needle@),
{
    let hlen = hay.unicode_len();
    let nlen = needle.unicode_len();
    let mut k: usize = 0;
    while k < nlen
        invariant
            k <= nlen,
            hlen == hay@.len(),
            nlen == needle@.len(),
            i + nlen <= hay@.len(),
            forall|m: int| 0 <= m < k ==> hay@[i + m] == needle@[m],
        decreases nlen - k,
    {
        let hc = hay.get_char(i + k);
        let nc = needle.get_char(k);
        if hc != nc {
            proof {
                assert(hay@.subrange(i as int, i as int + nlen as int)[k as int] == hay@[i + k]);
            }
            return false;
        }
        k += 1;
    }
    proof {
        assert(hay@.subrange(i as int, i as int + nlen as int) =~= needle@);
    }
    true
}

/// Substring search: does `hay` contain `needle`?
pub fn contains_sub(hay: &str, needle: &str) -> (r: bool)
    ensures
        r == contains_seq(hay@, needle@),
{
    let hlen = hay.unicode_len();
    let nlen = needle.unicode_len();
    if nlen > hlen {
        return false;
    }
    if nlen == 0 {
        proof {
            assert(hay@.subrange(0, 0 + needle@.len() as int) =~= needle@);
        }
        return true;
    }
    let mut i: usize = 0;
    while i <= hlen - nlen
        invariant
            hlen == hay@.len(),
            nlen == needle@.len(),
            1 <= nlen <= hlen,
            i <= hlen - nlen + 1,
            forall|j: int|
                0 <= j < i ==> #[trigger] hay@.subrange(j, j + nlen as int) != needle@,
        decreases hlen - nlen + 1 - i,
    {
        if match_at(hay, needle, i) {
            return true;
        }
        i += 1;
    }
    false
}

/// Character-for-character string equality.
pub fn str_eq(a: &str, b: &str) -> (r: bool)
    ensures
        r == (a@ == b@),
{
    let alen = a.unicode_len();
    let blen = b.unicode_len();
    if alen != blen {
        return false;
    }
    let mut k: usize = 0;
    while k < alen
        invariant
            alen == a@.len(),
            alen == b@.len(),
            k <= alen,
            forall|m: int| 0 <= m < k ==> a@[m] == b@[m],
        decreases alen - k,
    {
        if a.get_char(k) != b.get_char(k) {
            return false;
        }
        k += 1;
    }
    proof {
        assert(a@ =~= b@);
    }
    true
}

/// `prefix` is an initial run of `s`.
pub open spec fn has_prefix(s: Seq<char>, prefix: Seq<char>) -> bool {
    prefix.len() <= s.len() && s.take(prefix.len() as int) == prefix
}

/// Prefix test.
pub fn starts_with(s: &str, prefix: &str) -> (r: bool)
    ensures
        r == has_prefix(s@, prefix@),
{
    let slen = s.unicode_len();
    let plen = prefix.unicode_len();
    if plen > slen {
        return false;
    }
    let r = match_at(s, prefix, 0);
    proof {
        assert(s@.subrange(0, prefix@.len() as int) == s@.take(prefix@.len() as int));
    }
    r
}

/// The lower-cased form of a piece of text, as Unicode case mapping
/// defines it; the result depends on the characters alone.
pub uninterp spec fn lower_of(s: Seq<char>) -> Seq<char>;

/// Relies on str::to_lowercase: the lower-cased form of `s`, a function of
/// the characters alone, and empty text stays empty.
#[verifier::external_body]
pub(crate) fn lowercase(s: &str) -> (r: String)
    ensures
        r@ == lower_of(s@),
        s@.len() == 0 ==> r@.len() == 0,
{
    s.to_lowercase()
}

/// The character views of a sequence of strings.
pub open spec fn views_of(v: Seq<String>) -> Seq<Seq<char>> {
    v.map_values(|p: String| p@)
}

/// Index of the first occurrence of `c` in `s`, or -1 if `c` does not occur.
pub open spec fn find_ch(s: Seq<char>, c: char) -> int
    decreases s.len(),
{
    if s.len() == 0 {
        -1
    } else if s[0] == c {
        0
    } else {
        let r = find_ch(s.drop_first(), c);
        if r < 0 {
            -1
        } else {
            r + 1
        }
    }
}

/// If the first `i` characters differ from `c` and either `i` is the length
/// of `s` or `s[i] == c`, then `find_ch` lands exactly there.
proof fn lemma_find_ch_at(s: Seq<char>, c: char, i: int)
    requires
        0 <= i <= s.len(),
        forall|j: int| 0 <= j < i ==> s[j] != c,
        i < s.len() ==> s[i] == c,
    ensures
        find_ch(s, c) == if i == s.len() {
            -1int
        } else {
            i
        },
    decreases s.len(),
{
    if i > 0 {
        lemma_find_ch_at(s.drop_first(), c, i - 1);
    }
}

/// Range and characterization facts about `find_ch`.
proof fn lemma_find_ch_range(s: Seq<char>, c: char)
    ensures
        -1 <= find_ch(s, c) < s.len() || (s.len() == 0 && find_ch(s, c) == -1),
        find_ch(s, c) >= 0 ==> s[find_ch(s, c)] == c,
        find_ch(s, c) == -1 ==> forall|j: int| 0 <= j < s.len() ==> s[j] != c,
    decreases s.len(),
{
    if s.len() == 0 {
    } else if s[0] == c {
    } else {
        lemma_find_ch_range(s.drop_first(), c);
        if find_ch(s, c) == -1 {
            assert forall|j: int| 0 <= j < s.len() implies s[j] != c by {
                if j > 0 {
                    assert(s.drop_first()[j - 1] == s[j]);
                }
            }
        }
    }
}

/// Position of the first occurrence of `c` in `s`, if any.
pub fn find_char(s: &str, c: char) -> (r: Option<usize>)
    ensures
        match r {
            Some(i) => find_ch(s@, c) == i as int && i < s@.len(),
            None => find_ch(s@, c) == -1,
        },
{
    let len = s.unicode_len();
    let mut i: usize = 0;
    while i < len
        invariant
            len == s@.len(),
            i <= len,
            forall|j: int| 0 <= j < i ==> s@[j] != c,
        decreases len - i,
    {
        if s.get_char(i) == c {
            proof {
                lemma_find_ch_at(s@, c, i as int);
            }
            return Some(i);
        }
        i += 1;
    }
    proof {
        lemma_find_ch_at(s@, c, len as int);
    }
    None
}

/// `s` cut at every occurrence of `c`; the separators themselves are
/// dropped, and empty pieces are kept.
pub open spec fn split_on(s: Seq<char>, c: char) -> Seq<Seq<char>>
    decreases s.len(),
    via split_on_decreases
{
    let i = find_ch(s, c);
    if i < 0 {
        seq![s]
    } else {
        seq![s.take(i)] + split_on(s.skip(i + 1), c)
    }
}

#[via_fn]
proof fn split_on_decreases(s: Seq<char>, c: char) {
    lemma_find_ch_range(s, c);
}

/// Splits `s` at every occurrence of `c`.
pub fn split_char(s: &str, c: char) -> (parts: Vec<String>)
    ensures
        views_of(parts@) == split_on(s@, c),
{
    let mut parts: Vec<String> = Vec::new();
    let mut rest: &str = s;
    let mut rlen = rest.unicode_len();
    loop
        invariant
            rlen == rest@.len(),
            views_of(parts@) + split_on(rest@, c) == split_on(s@, c),
        decreases rlen,
    {
        let ghost prev = rest@;
        let ghost prev_parts = parts@;
        match find_char(rest, c) {
            Some(i) => {
                let head = rest.substring_char(0, i);
                parts.push(String::from_str(head));
                rest = rest.substring_char(i + 1, rlen);
                rlen = rest.unicode_len();
                proof {
                    lemma_find_ch_range(prev, c);
                    assert(head@ =~= prev.take(i as int));
                    assert(rest@ =~= prev.skip(i as int + 1));
                    assert(views_of(parts@) =~= views_of(prev_parts).push(head@));
                    assert(views_of(parts@) + split_on(rest@, c) =~= views_of(prev_parts)
                        + split_on(prev, c));
                }
            },
            None => {
                parts.push(String::from_str(rest));
                proof {
                    assert(split_on(prev, c) =~= seq![prev]);
                    assert(views_of(parts@) =~= views_of(prev_parts).push(prev));
                    assert(views_of(parts@) =~= views_of(prev_parts) + split_on(prev, c));
                }
                return parts;
            },
        }
    }
}

/// The lines of `s`: pieces between newline characters, without a final
/// empty piece when `s` ends in a newline.
pub open spec fn lines_of(s: Seq<char>) -> Seq<Seq<char>> {
    let parts = split_on(s, '\n');
    if parts.len() > 0 && parts.last().len() == 0 {
        parts.drop_last()
    } else {
        parts
    }
}

/// Splits `s` into its lines.
pub fn split_lines(s: &str) -> (lines: Vec<String>)
    ensures
        views_of(lines@) == lines_of(s@),
{
    let mut parts = split_char(s, '\n');
    if parts.len() > 0 {
        let lastlen = parts[parts.len() - 1].as_str().unicode_len();
        if lastlen == 0 {
            let ghost prev_parts = parts@;
            parts.pop();
            proof {
                assert(views_of(prev_parts).last().len() == 0);
                assert(views_of(parts@) =~= views_of(prev_parts).drop_last());
            }
        }
    }
    parts
}

/// Index of the first blank-space character in `s`, or -1 if none.
pub open spec fn find_ws(s: Seq<char>) -> int
    decreases s.len(),
{
    if s.len() == 0 {
        -1
    } else if is_ws(s[0]) {
        0
    } else {
        let r = find_ws(s.drop_first());
        if r < 0 {
            -1
        } else {
            r + 1
        }
    }
}

/// If the first `i` characters are not blank and either `i` is the length
/// of `s` or `s[i]` is blank, then `find_ws` lands exactly there.
proof fn lemma_find_ws_at(s: Seq<char>, i: int)
    requires
        0 <= i <= s.len(),
        forall|j: int| 0 <= j < i ==> !is_ws(s[j]),
        i < s.len() ==> is_ws(s[i]),
    ensures
        find_ws(s) == if i == s.len() {
            -1int
        } else {
            i
        },
    decreases s.len(),
{
    if i > 0 {
        lemma_find_ws_at(s.drop_first(), i - 1);
    }
}

/// Range facts about `find_ws`.
proof fn lemma_find_ws_range(s: Seq<char>)
    ensures
        -1 <= find_ws(s) < s.len() || (s.len() == 0 && find_ws(s) == -1),
        find_ws(s) >= 0 ==> is_ws(s[find_ws(s)]),
    decreases s.len(),
{
    if s.len() == 0 {
    } else if is_ws(s[0]) {
    } else {
        lemma_find_ws_range(s.drop_first());
    }
}

/// The maximal blank-free tokens of `s`, in order; blank space only
/// separates and never appears in a token.
pub open spec fn tokens_of(s: Seq<char>) -> Seq<Seq<char>>
    decreases s.len(),
    via tokens_of_decreases
{
    if s.len() == 0 {
        Seq::empty()
    } else if is_ws(s[0]) {
        tokens_of(s.drop_first())
    } else {
        let j = if find_ws(s) < 0 {
            s.len() as int
        } else {
            find_ws(s)
        };
        seq![s.take(j)] + tokens_of(s.skip(j))
    }
}

#[via_fn]
proof fn tokens_of_decreases(s: Seq<char>) {
    if s.len() > 0 && !is_ws(s[0]) {
        lemma_find_ws_range(s);
        if find_ws(s) == 0 {
            assert(is_ws(s[0]));
        }
    }
}

/// Exec test for `is_ws`.
pub fn is_ws_char(c: char) -> (r: bool)
    ensures
        r == is_ws(c),
{
    let u = c as u32;
    u == 0x09 || u == 0x0A || u == 0x0B || u == 0x0C || u == 0x0D || u == 0x20 || u == 0x85
        || u == 0xA0 || u == 0x1680 || (0x2000 <= u && u <= 0x200A) || u == 0x2028 || u == 0x2029
        || u == 0x202F || u == 0x205F || u == 0x3000
}

/// Splits `s` into its maximal blank-free tokens.
pub fn split_ws_tokens(s: &str) -> (toks: Vec<String>)
    ensures
        views_of(toks@) == tokens_of(s@),
{
    let mut toks: Vec<String> = Vec::new();
    let mut rest: &str = s;
    let mut rlen = rest.unicode_len();
    while rlen > 0
        invariant
            rlen == rest@.len(),
            views_of(toks@) + tokens_of(rest@) == tokens_of(s@),
        decreases rlen,
    {
        let ghost prev = rest@;
        let ghost prev_toks = toks@;
        let c0 = rest.get_char(0);
        if is_ws_char(c0) {
            rest = rest.substring_char(1, rlen);
            rlen = rlen - 1;
            proof {
                assert(rest@ =~= prev.drop_first());
                assert(views_of(toks@) + tokens_of(rest@) == tokens_of(s@));
            }
        } else {
            let mut k: usize = 1;
            while k < rlen && !is_ws_char(rest.get_char(k))
                invariant
                    rlen == rest@.len(),
                    1 <= k <= rlen,
                    forall|j: int| 0 <= j < k ==> !is_ws(rest@[j]),
                decreases rlen - k,
            {
                k += 1;
            }
            proof {
                lemma_find_ws_at(rest@, k as int);
            }
            let tok = rest.substring_char(0, k);
            toks.push(String::from_str(tok));
            rest = rest.substring_char(k, rlen);
            rlen = rlen - k;
            proof {
                assert(tok@ =~= prev.take(k as int));
                assert(rest@ =~= prev.skip(k as int));
                assert(tokens_of(prev) == seq![prev.take(k as int)] + tokens_of(
                    prev.skip(k as int),
                ));
                assert(views_of(toks@) =~= views_of(prev_toks).push(tok@));
                assert(views_of(toks@) + tokens_of(rest@) =~= views_of(prev_toks) + tokens_of(
                    prev,
                ));
            }
        }
    }
    proof {
        assert(tokens_of(rest@) =~= Seq::<Seq<char>>::empty());
        assert(views_of(toks@) + tokens_of(rest@) =~= views_of(toks@));
    }
    toks
}

/// Index of the first non-blank character, or -1 when all are blank.
pub open spec fn first_non_ws(s: Seq<char>) -> int
    decreases s.len(),
{
    if s.len() == 0 {
        -1
    } else if !is_ws(s[0]) {
        0
    } else {
        let r = first_non_ws(s.drop_first());
        if r < 0 {
            -1
        } else {
            r + 1
        }
    }
}

/// Index of the last non-blank character, or -1 when all are blank.
pub open spec fn last_non_ws(s: Seq<char>) -> int
    decreases s.len(),
{
    if s.len() == 0 {
        -1
    } else if !is_ws(s.last()) {
        s.len() - 1
    } else {
        last_non_ws(s.drop_last())
    }
}

/// `s` with blank space stripped from both ends.
pub open spec fn trim_of(s: Seq<char>) -> Seq<char> {
    if first_non_ws(s) < 0 {
        Seq::empty()
    } else {
        s.subrange(first_non_ws(s), last_non_ws(s) + 1)
    }
}

proof fn lemma_first_non_ws_at(s: Seq<char>, i: int)
    requires
        0 <= i <= s.len(),
        forall|j: int| 0 <= j < i ==> is_ws(s[j]),
        i < s.len() ==> !is_ws(s[i]),
    ensures
        first_non_ws(s) == if i == s.len() {
            -1int
        } else {
            i
        },
    decreases s.len(),
{
    if i > 0 {
        lemma_first_non_ws_at(s.drop_first(), i - 1);
    }
}

proof fn lemma_last_non_ws_at(s: Seq<char>, b: int)
    requires
        0 <= b <= s.len(),
        forall|j: int| b <= j < s.len() ==> is_ws(s[j]),
        b > 0 ==> !is_ws(s[b - 1]),
    ensures
        last_non_ws(s) == b - 1,
    decreases s.len(),
{
    if b < s.len() {
        lemma_last_non_ws_at(s.drop_last(), b);
    }
}

/// Strips blank space from both ends of `s`.
pub fn trim(s: &str) -> (r: &str)
    ensures
        r@ == trim_of(s@),
{
    let len = s.unicode_len();
    let mut a: usize = 0;
    while a < len && is_ws_char(s.get_char(a))
        invariant
            0 <= a <= len,
            len == s@.len(),
            forall|j: int| 0 <= j < a ==> is_ws(s@[j]),
        decreases len - a,
    {
        a += 1;
    }
    if a == len {
        proof {
            lemma_first_non_ws_at(s@, len as int);
        }
        let r = s.substring_char(0, 0);
        proof {
            assert(r@ =~= trim_of(s@));
        }
        return r;
    }
    proof {
        lemma_first_non_ws_at(s@, a as int);
    }
    let mut b: usize = len;
    while b > a && is_ws_char(s.get_char(b - 1))
        invariant
            a < b + 1,
            b <= len,
            a < len,
            len == s@.len(),
            !is_ws(s@[a as int]),
            forall|j: int| b <= j < len ==> is_ws(s@[j]),
        decreases b,
    {
        b -= 1;
    }
    proof {
        if b == a {
            assert(is_ws(s@[a as int]));
        }
        assert(b > a);
        assert(!is_ws(s@[b - 1]));
        lemma_last_non_ws_at(s@, b as int);
    }
    let r = s.substring_char(a, b);
    proof {
        assert(r@ =~= trim_of(s@));
    }
    r
}

/// `s` with `p` removed from the front when it starts with `p`.
pub open spec fn strip_prefix(s: Seq<char>, p: Seq<char>) -> Seq<char> {
    if has_prefix(s, p) {
        s.skip(p.len() as int)
    } else {
        s
    }
}

/// Strips one prefix from the front of `s`, when present.
pub fn strip_prefix_str<'a>(s: &'a str, p: &str) -> (r: &'a str)
    ensures
        r@ == strip_prefix(s@, p@),
{
    if starts_with(s, p) {
        let len = s.unicode_len();
        let plen = p.unicode_len();
        let r = s.substring_char(plen, len);
        proof {
            assert(r@ =~= s@.skip(p@.len() as int));
        }
        r
    } else {
        s
    }
}

/// The tokens joined back together with one space between neighbours.
pub open spec fn join_sp(ts: Seq<Seq<char>>) -> Seq<char>
    decreases ts.len(),
{
    if ts.len() == 0 {
        Seq::empty()
    } else if ts.len() == 1 {
        ts[0]
    } else {
        ts[0] + seq![' '] + join_sp(ts.drop_first())
    }
}

/// Appending one more token extends the joined text by a space and the
/// token, once the list is non-empty.
proof fn lemma_join_push(ts: Seq<Seq<char>>, t: Seq<char>)
    ensures
        ts.len() == 0 ==> join_sp(ts.push(t)) == t,
        ts.len() > 0 ==> join_sp(ts.push(t)) == join_sp(ts) + seq![' '] + t,
    decreases ts.len(),
{
    if ts.len() == 0 {
        assert(ts.push(t)[0] == t);
    } else if ts.len() == 1 {
        assert(ts.push(t).drop_first() =~= seq![t]);
        assert(ts.push(t)[0] == ts[0]);
        assert(seq![t][0] == t);
        assert(join_sp(seq![t]) == t);
        assert(join_sp(ts.push(t)) == ts[0] + seq![' '] + t);
    } else {
        lemma_join_push(ts.drop_first(), t);
        assert(ts.push(t).drop_first() =~= ts.drop_first().push(t));
    }
}

/// Joins the tokens from index `start` on with single spaces.
pub fn join_from(toks: &Vec<String>, start: usize) -> (r: String)
    requires
        start <= toks@.len(),
    ensures
        r@ == join_sp(views_of(toks@).skip(start as int)),
{
    let mut r = String::new();
    let mut i = start;
    while i < toks.len()
        invariant
            start <= i <= toks@.len(),
            r@ == join_sp(views_of(toks@).subrange(start as int, i as int)),
        decreases toks@.len() - i,
    {
        let ghost done = views_of(toks@).subrange(start as int, i as int);
        if i > start {
            r.append(" ");
            proof {
                reveal_strlit(" ");
                assert(" "@ =~= seq![' ']);
            }
        }
        r.append(toks[i].as_str());
        i += 1;
        proof {
            lemma_join_push(done, views_of(toks@)[i - 1]);
            assert(views_of(toks@).subrange(start as int, i as int) =~= done.push(
                views_of(toks@)[i - 1],
            ));
        }
    }
    proof {
        assert(views_of(toks@).subrange(start as int, toks@.len() as int) =~= views_of(
            toks@,
        ).skip(start as int));
    }
    r
}

} // verus!
