//! Character and string utilities shared by the evaluation engine: ASCII
//! case folding, splitting on separators, lexicographic ordering, and
//! decimal rendering and parsing of fixed-point numbers.

use vstd::prelude::*;

verus! {

/// ASCII lowercase of one character; everything else is unchanged.
pub open spec fn lower_char(c: char) -> char {
    if 'A' <= c && c <= 'Z' {
        ((c as u32) + 32) as char
    } else {
        c
    }
}

/// ASCII uppercase of one character; everything else is unchanged.
pub open spec fn upper_char(c: char) -> char {
    if 'a' <= c && c <= 'z' {
        ((c as u32) - 32) as char
    } else {
        c
    }
}

pub open spec fn lower_seq(s: Seq<char>) -> Seq<char> {
    s.map_values(|c: char| lower_char(c))
}

pub open spec fn upper_seq(s: Seq<char>) -> Seq<char> {
    s.map_values(|c: char| upper_char(c))
}

/// Case-insensitive equality, folding ASCII letters only.
pub open spec fn eq_ignore_case(a: Seq<char>, b: Seq<char>) -> bool {
    lower_seq(a) == lower_seq(b)
}

/// ASCII lowercase of one character, executable form.
pub fn lower_char_exec(c: char) -> (r: char)
    ensures
        r == lower_char(c),
{
    if 'A' <= c && c <= 'Z' {
        let u: u32 = (c as u32) + 32;
        assert(u <= 0x7a);
        char_from_small_u32(u)
    } else {
        c
    }
}

/// ASCII uppercase of one character, executable form.
pub fn upper_char_exec(c: char) -> (r: char)
    ensures
        r == upper_char(c),
{
    if 'a' <= c && c <= 'z' {
        let u: u32 = (c as u32) - 32;
        assert(u <= 0x5a);
        char_from_small_u32(u)
    } else {
        c
    }
}

/// Relies on char::from_u32 of std: every value below the surrogate range is
/// a valid scalar and is converted to the character with that code.
#[verifier::external_body]
fn char_from_small_u32(u: u32) -> (r: char)
    requires
        u < 0xD800,
    ensures
        r == (u as char),
{
    char::from_u32(u).unwrap()
}

/// Relies on String::push of std: appends exactly one character.
#[verifier::external_body]
fn push_char(s: &mut String, c: char)
    ensures
        final(s)@ == old(s)@.push(c),
{
    s.push(c);
}

/// Folds one string to ASCII lowercase.
pub fn lower_str(s: &str) -> (r: String)
    ensures
        r@ == lower_seq(s@),
{
    let n: usize = s.unicode_len();
    let mut r: String = String::new();
    let mut i: usize = 0;
    while i < n
        invariant
            n == s@.len(),
            i <= n,
            r@ == lower_seq(s@.subrange(0, i as int)),
        decreases n - i,
    {
        push_char(&mut r, lower_char_exec(s.get_char(i)));
        assert(r@ =~= lower_seq(s@.subrange(0, i + 1 as int)));
        i = i + 1;
    }
    assert(s@.subrange(0, n as int) =~= s@);
    r
}

/// Folds one string to ASCII uppercase.
pub fn upper_str(s: &str) -> (r: String)
    ensures
        r@ == upper_seq(s@),
{
    let n: usize = s.unicode_len();
    let mut r: String = String::new();
    let mut i: usize = 0;
    while i < n
        invariant
            n == s@.len(),
            i <= n,
            r@ == upper_seq(s@.subrange(0, i as int)),
        decreases n - i,
    {
        push_char(&mut r, upper_char_exec(s.get_char(i)));
        assert(r@ =~= upper_seq(s@.subrange(0, i + 1 as int)));
        i = i + 1;
    }
    assert(s@.subrange(0, n as int) =~= s@);
    r
}

/// Exact equality of two string slices.
pub fn str_eq(a: &str, b: &str) -> (r: bool)
    ensures
        r == (a@ == b@),
{
    let na: usize = a.unicode_len();
    let nb: usize = b.unicode_len();
    if na != nb {
        return false;
    }
    let mut i: usize = 0;
    while i < na
        invariant
            na == a@.len(),
            na == b@.len(),
            i <= na,
            forall|j: int| 0 <= j < i ==> a@[j] == b@[j],
        decreases na - i,
    {
        if a.get_char(i) != b.get_char(i) {
            return false;
        }
        i = i + 1;
    }
    proof {
        assert(a@ =~= b@);
    }
    true
}

/// Case-insensitive equality of two string slices (ASCII folding).
pub fn str_eq_ignore_case(a: &str, b: &str) -> (r: bool)
    ensures
        r == eq_ignore_case(a@, b@),
{
    let na: usize = a.unicode_len();
    let nb: usize = b.unicode_len();
    if na != nb {
        proof {
            assert(lower_seq(a@).len() != lower_seq(b@).len());
        }
        return false;
    }
    let mut i: usize = 0;
    while i < na
        invariant
            na == a@.len(),
            na == b@.len(),
            i <= na,
            forall|j: int| 0 <= j < i ==> lower_char(a@[j]) == lower_char(b@[j]),
        decreases na - i,
    {
        if lower_char_exec(a.get_char(i)) != lower_char_exec(b.get_char(i)) {
            proof {
                assert(lower_seq(a@)[i as int] != lower_seq(b@)[i as int]);
            }
            return false;
        }
        i = i + 1;
    }
    proof {
        assert(lower_seq(a@) =~= lower_seq(b@));
    }
    true
}

/// Copies the characters of a string slice into a vector.
pub fn str_to_chars(s: &str) -> (r: Vec<char>)
    ensures
        r@ == s@,
{
    let n: usize = s.unicode_len();
    let mut r: Vec<char> = Vec::new();
    let mut i: usize = 0;
    while i < n
        invariant
            n == s@.len(),
            i <= n,
            r@ == s@.subrange(0, i as int),
        decreases n - i,
    {
        r.push(s.get_char(i));
        assert(r@ =~= s@.subrange(0, i + 1 as int));
        i = i + 1;
    }
    assert(r@ =~= s@);
    r
}

/// Builds a string out of a vector of characters.
pub fn chars_to_string(v: &Vec<char>) -> (r: String)
    ensures
        r@ == v@,
{
    let mut r: String = String::new();
    let mut i: usize = 0;
    while i < v.len()
        invariant
            i <= v@.len(),
            r@ == v@.subrange(0, i as int),
        decreases v@.len() - i,
    {
        push_char(&mut r, v[i]);
        assert(r@ =~= v@.subrange(0, i + 1 as int));
        i = i + 1;
    }
    assert(r@ =~= v@);
    r
}

/// The pieces of `s` between occurrences of `sep`, in order. An empty
/// string yields one empty piece, as `str::split` does.
pub open spec fn split_on(s: Seq<char>, sep: char) -> Seq<Seq<char>>
    decreases s.len(),
{
    if s.len() == 0 {
        seq![Seq::<char>::empty()]
    } else if s[0] == sep {
        seq![Seq::<char>::empty()] + split_on(s.drop_first(), sep)
    } else {
        let rest = split_on(s.drop_first(), sep);
        seq![seq![s[0]] + rest[0]] + rest.drop_first()
    }
}

pub proof fn lemma_split_on_len(s: Seq<char>, sep: char)
    ensures
        split_on(s, sep).len() >= 1,
    decreases s.len(),
{
    if s.len() != 0 {
        lemma_split_on_len(s.drop_first(), sep);
    }
}

/// A piece of a split never contains the separator it was split on.
pub open spec fn sep_free(s: Seq<char>, sep: char) -> bool {
    forall|i: int| 0 <= i < s.len() ==> s[i] != sep
}

/// A separator-free string splits into itself alone.
pub proof fn lemma_split_whole(s: Seq<char>, sep: char)
    requires
        sep_free(s, sep),
    ensures
        split_on(s, sep) =~~= seq![s],
    decreases s.len(),
{
    if s.len() != 0 {
        lemma_split_whole(s.drop_first(), sep);
        assert(seq![s[0]] + s.drop_first() =~= s);
    }
}

/// Splitting a string that starts with a separator-free piece, then the
/// separator, yields that piece followed by the split of the remainder.
pub proof fn lemma_split_step(a: Seq<char>, r: Seq<char>, sep: char)
    requires
        sep_free(a, sep),
    ensures
        split_on(a + seq![sep] + r, sep) =~~= seq![a] + split_on(r, sep),
    decreases a.len(),
{
    let s = a + seq![sep] + r;
    if a.len() == 0 {
        assert(s =~= seq![sep] + r);
        assert(s[0] == sep);
        assert(s.drop_first() =~= r);
    } else {
        assert(s[0] == a[0]);
        assert(s.drop_first() =~= a.drop_first() + seq![sep] + r);
        lemma_split_step(a.drop_first(), r, sep);
        lemma_split_on_len(r, sep);
        assert(seq![s[0]] + (seq![a.drop_first()] + split_on(r, sep))[0] =~= a);
    }
}

/// Splits a string slice on one separator character.
pub fn split_str(s: &str, sep: char) -> (r: Vec<String>)
    ensures
        r@.map_values(|p: String| p@) == split_on(s@, sep),
{
    let n: usize = s.unicode_len();
    let mut parts: Vec<String> = Vec::new();
    let mut cur: Vec<char> = Vec::new();
    let mut i: usize = 0;
    proof {
        assert(Seq::<char>::empty() + s@.subrange(0, n as int) =~= s@);
        assert(parts@.map_values(|p: String| p@) + split_on(s@, sep) =~~= split_on(s@, sep));
    }
    while i < n
        invariant
            n == s@.len(),
            i <= n,
            sep_free(cur@, sep),
            split_on(s@, sep) == parts@.map_values(|p: String| p@) + split_on(
                cur@ + s@.subrange(i as int, n as int),
                sep,
            ),
        decreases n - i,
    {
        let c = s.get_char(i);
        if c == sep {
            let ghost prev_parts = parts@;
            let ghost prev_cur = cur@;
            let piece = chars_to_string(&cur);
            parts.push(piece);
            cur = Vec::new();
            proof {
                assert(prev_cur + s@.subrange(i as int, n as int) =~= prev_cur + seq![sep]
                    + s@.subrange(i + 1, n as int));
                lemma_split_step(prev_cur, s@.subrange(i + 1, n as int), sep);
                assert(parts@.map_values(|p: String| p@) =~~= prev_parts.map_values(
                    |p: String| p@,
                ).push(prev_cur));
                assert(cur@ + s@.subrange(i + 1, n as int) =~= s@.subrange(i + 1, n as int));
                assert(split_on(s@, sep) =~~= parts@.map_values(|p: String| p@) + split_on(
                    cur@ + s@.subrange(i + 1, n as int),
                    sep,
                ));
            }
        } else {
            let ghost old_cur = cur@;
            cur.push(c);
            proof {
                assert(old_cur + s@.subrange(i as int, n as int) =~= cur@ + s@.subrange(
                    i + 1,
                    n as int,
                ));
            }
        }
        i = i + 1;
    }
    let ghost prev_parts = parts@;
    let ghost prev_cur = cur@;
    proof {
        assert(prev_cur + s@.subrange(n as int, n as int) =~= prev_cur);
        lemma_split_whole(prev_cur, sep);
    }
    let piece = chars_to_string(&cur);
    parts.push(piece);
    proof {
        assert(parts@.map_values(|p: String| p@) =~~= prev_parts.map_values(|p: String| p@).push(
            prev_cur,
        ));
        assert(prev_parts.map_values(|p: String| p@) + split_on(prev_cur, sep)
            =~~= prev_parts.map_values(|p: String| p@).push(prev_cur));
    }
    parts
}

/// Strict lexicographic order on character sequences by code point; this is
/// the order Rust's `String` ordering induces.
pub open spec fn lex_lt(a: Seq<char>, b: Seq<char>) -> bool
    decreases a.len(),
{
    if b.len() == 0 {
        false
    } else if a.len() == 0 {
        true
    } else if (a[0] as u32) < (b[0] as u32) {
        true
    } else if (b[0] as u32) < (a[0] as u32) {
        false
    } else {
        lex_lt(a.drop_first(), b.drop_first())
    }
}

pub proof fn lemma_lex_lt_trichotomy(a: Seq<char>, b: Seq<char>)
    ensures
        lex_lt(a, b) || lex_lt(b, a) || a == b,
    decreases a.len(),
{
    if a.len() == 0 && b.len() == 0 {
        assert(a =~= b);
    } else if a.len() != 0 && b.len() != 0 && (a[0] as u32) == (b[0] as u32) {
        vstd::utf8::char_u32_cast(a[0], a[0] as u32);
        vstd::utf8::char_u32_cast(b[0], b[0] as u32);
        assert(a[0] == b[0]);
        lemma_lex_lt_trichotomy(a.drop_first(), b.drop_first());
        if a.drop_first() == b.drop_first() {
            assert(a.drop_first().len() == b.drop_first().len());
            assert(a.len() == b.len());
            assert forall|i: int| 0 <= i < a.len() implies a[i] == b[i] by {
                if i > 0 {
                    assert(a.drop_first()[i - 1] == a[i]);
                    assert(b.drop_first()[i - 1] == b[i]);
                }
            }
            assert(a =~= b);
        }
    }
}

pub proof fn lemma_lex_lt_irrefl(a: Seq<char>)
    ensures
        !lex_lt(a, a),
    decreases a.len(),
{
    if a.len() != 0 {
        lemma_lex_lt_irrefl(a.drop_first());
    }
}

pub proof fn lemma_lex_lt_trans(a: Seq<char>, b: Seq<char>, c: Seq<char>)
    requires
        lex_lt(a, b),
        lex_lt(b, c),
    ensures
        lex_lt(a, c),
    decreases a.len(),
{
    if a.len() != 0 && b.len() != 0 && c.len() != 0 && (a[0] as u32) == (b[0] as u32) && (
    b[0] as u32) == (c[0] as u32) {
        lemma_lex_lt_trans(a.drop_first(), b.drop_first(), c.drop_first());
    }
}

/// Compares two string slices in the lexicographic order.
pub fn str_lt(a: &str, b: &str) -> (r: bool)
    ensures
        r == lex_lt(a@, b@),
{
    let na: usize = a.unicode_len();
    let nb: usize = b.unicode_len();
    let mut i: usize = 0;
    proof {
        assert(a@.skip(0) =~= a@);
        assert(b@.skip(0) =~= b@);
    }
    while i < na && i < nb
        invariant
            na == a@.len(),
            nb == b@.len(),
            i <= na,
            i <= nb,
            lex_lt(a@, b@) == lex_lt(a@.skip(i as int), b@.skip(i as int)),
        decreases na - i,
    {
        let ca = a.get_char(i);
        let cb = b.get_char(i);
        if (ca as u32) < (cb as u32) {
            return true;
        }
        if (cb as u32) < (ca as u32) {
            return false;
        }
        proof {
            assert(a@.skip(i as int).drop_first() =~= a@.skip(i + 1));
            assert(b@.skip(i as int).drop_first() =~= b@.skip(i + 1));
        }
        i = i + 1;
    }
    i < nb
}

/// A list of strings in strictly increasing lexicographic order; such a
/// list has no duplicates.
pub open spec fn strictly_sorted(s: Seq<Seq<char>>) -> bool {
    forall|i: int, j: int| 0 <= i < j < s.len() ==> lex_lt(s[i], s[j])
}

pub open spec fn views_of(v: Seq<String>) -> Seq<Seq<char>> {
    v.map_values(|p: String| p@)
}

/// Membership in a sequence extended by one element.
pub proof fn lemma_contains_push<A>(s: Seq<A>, a: A)
    ensures
        forall|x: A| #[trigger] s.push(a).contains(x) <==> s.contains(x) || x == a,
{
    assert forall|x: A| #[trigger] s.push(a).contains(x) <==> s.contains(x) || x == a by {
        if s.push(a).contains(x) {
            let i = choose|i: int| 0 <= i < s.push(a).len() && s.push(a)[i] == x;
            if i < s.len() {
                assert(s[i] == x);
            }
        }
        if s.contains(x) {
            let i = choose|i: int| 0 <= i < s.len() && s[i] == x;
            assert(s.push(a)[i] == x);
        }
        if x == a {
            assert(s.push(a)[s.len() as int] == x);
        }
    }
}

/// Inserts a string into a strictly sorted list, keeping it sorted and
/// without duplicates; inserting an element already present changes nothing.
#[verifier::rlimit(50)]
pub fn insert_sorted(v: &mut Vec<String>, s: String)
    requires
        strictly_sorted(views_of(old(v)@)),
    ensures
        strictly_sorted(views_of(final(v)@)),
        forall|x: Seq<char>|
            views_of(final(v)@).contains(x) <==> (views_of(old(v)@).contains(x) || x == s@),
        final(v)@.len() <= old(v)@.len() + 1,
        old(v)@.len() <= final(v)@.len(),
        !views_of(old(v)@).contains(s@) ==> final(v)@.len() == old(v)@.len() + 1,
{
    let ghost orig = views_of(old(v)@);
    let mut k: usize = 0;
    while k < v.len()
        invariant
            orig == views_of(v@),
            strictly_sorted(orig),
            k <= v@.len(),
            forall|m: int| 0 <= m < k ==> lex_lt(orig[m], s@),
        decreases v@.len() - k,
    {
        if str_eq(s.as_str(), v[k].as_str()) {
            proof {
                assert(orig.contains(s@)) by {
                    assert(orig[k as int] == s@);
                }
            }
            return ;
        }
        if str_lt(s.as_str(), v[k].as_str()) {
            let ghost old_vs = v@;
            v.insert(k, s);
            proof {
                assert(views_of(v@) =~~= orig.insert(k as int, s@));
                orig.insert_ensures(k as int, s@);
                assert forall|i: int, j: int|
                    0 <= i < j < views_of(v@).len() implies lex_lt(
                    views_of(v@)[i],
                    views_of(v@)[j],
                ) by {
                    let w = views_of(v@);
                    if j < k {
                        assert(w[i] == orig[i] && w[j] == orig[j]);
                    } else if i > k {
                        assert(w[i] == orig[i - 1] && w[j] == orig[j - 1]);
                    } else if i < k && j == k {
                        assert(w[i] == orig[i] && w[j] == s@);
                    } else if i == k && j > k {
                        assert(w[i] == s@ && w[j] == orig[j - 1]);
                        if k < j - 1 {
                            lemma_lex_lt_trans(s@, orig[k as int], orig[j - 1]);
                        }
                    } else if i < k && j > k {
                        assert(w[i] == orig[i] && w[j] == orig[j - 1]);
                    }
                }
                assert forall|x: Seq<char>|
                    views_of(v@).contains(x) <==> (orig.contains(x) || x == s@) by {
                    let w = views_of(v@);
                    if w.contains(x) {
                        let i = choose|i: int| 0 <= i < w.len() && w[i] == x;
                        if i < k {
                            assert(orig[i] == x);
                        } else if i == k {
                        } else {
                            assert(orig[i - 1] == x);
                        }
                    }
                    if orig.contains(x) {
                        let i = choose|i: int| 0 <= i < orig.len() && orig[i] == x;
                        if i < k {
                            assert(w[i] == x);
                        } else {
                            assert(w[i + 1] == x);
                        }
                    }
                    if x == s@ {
                        assert(w[k as int] == x);
                    }
                }
            }
            return ;
        }
        proof {
            lemma_lex_lt_trichotomy(s@, v@[k as int]@);
        }
        k = k + 1;
    }
    let ghost old_vs = v@;
    v.push(s);
    proof {
        assert(views_of(v@) =~~= orig.push(s@));
        assert forall|i: int, j: int|
            0 <= i < j < views_of(v@).len() implies lex_lt(views_of(v@)[i], views_of(v@)[j]) by {
            let w = views_of(v@);
            if j < w.len() - 1 {
                assert(w[i] == orig[i] && w[j] == orig[j]);
            } else {
                assert(w[i] == orig[i] && w[j] == s@);
            }
        }
        assert forall|x: Seq<char>|
            views_of(v@).contains(x) <==> (orig.contains(x) || x == s@) by {
            let w = views_of(v@);
            if w.contains(x) {
                let i = choose|i: int| 0 <= i < w.len() && w[i] == x;
                if i < w.len() - 1 {
                    assert(orig[i] == x);
                }
            }
            if orig.contains(x) {
                let i = choose|i: int| 0 <= i < orig.len() && orig[i] == x;
                assert(w[i] == x);
            }
            if x == s@ {
                assert(w[w.len() - 1] == x);
            }
        }
    }
}

/// Two strictly sorted lists with the same members are the same list.
pub proof fn lemma_sorted_unique(a: Seq<Seq<char>>, b: Seq<Seq<char>>)
    requires
        strictly_sorted(a),
        strictly_sorted(b),
        forall|x: Seq<char>| a.contains(x) <==> b.contains(x),
    ensures
        a == b,
    decreases a.len(),
{
    if a.len() == 0 {
        if b.len() > 0 {
            assert(b.contains(b[0]));
        }
        assert(a =~~= b);
    } else {
        assert(a.contains(a[0]));
        assert(b.len() > 0) by {
            if b.len() == 0 {
                assert(b.contains(a[0]));
            }
        }
        assert(a[0] == b[0]) by {
            let j = choose|j: int| 0 <= j < b.len() && b[j] == a[0];
            if j > 0 {
                assert(lex_lt(b[0], b[j]));
                assert(a.contains(b[0])) by {
                    assert(b.contains(b[0]));
                }
                let i = choose|i: int| 0 <= i < a.len() && a[i] == b[0];
                if i == 0 {
                    lemma_lex_lt_irrefl(a[0]);
                } else {
                    assert(lex_lt(a[0], a[i]));
                    lemma_lex_lt_trans(a[0], b[0], a[0]);
                    lemma_lex_lt_irrefl(a[0]);
                }
            }
        }
        let ta = a.drop_first();
        let tb = b.drop_first();
        assert(strictly_sorted(ta)) by {
            assert(forall|i: int, j: int|
                0 <= i < j < ta.len() ==> ta[i] == a[i + 1] && ta[j] == a[j + 1]);
        }
        assert(strictly_sorted(tb)) by {
            assert(forall|i: int, j: int|
                0 <= i < j < tb.len() ==> tb[i] == b[i + 1] && tb[j] == b[j + 1]);
        }
        assert forall|x: Seq<char>| ta.contains(x) <==> tb.contains(x) by {
            if ta.contains(x) {
                let i = choose|i: int| 0 <= i < ta.len() && ta[i] == x;
                assert(a[i + 1] == x);
                assert(lex_lt(a[0], x));
                assert(b.contains(x));
                let j = choose|j: int| 0 <= j < b.len() && b[j] == x;
                assert(j > 0) by {
                    if j == 0 {
                        lemma_lex_lt_irrefl(x);
                    }
                }
                assert(tb[j - 1] == x);
            }
            if tb.contains(x) {
                let j = choose|j: int| 0 <= j < tb.len() && tb[j] == x;
                assert(b[j + 1] == x);
                assert(lex_lt(b[0], x));
                assert(a.contains(x));
                let i = choose|i: int| 0 <= i < a.len() && a[i] == x;
                assert(i > 0) by {
                    if i == 0 {
                        lemma_lex_lt_irrefl(x);
                    }
                }
                assert(ta[i - 1] == x);
            }
        }
        lemma_sorted_unique(ta, tb);
        assert(a =~~= b) by {
            assert(forall|i: int| 1 <= i < a.len() ==> a[i] == ta[i - 1] && b[i] == tb[i - 1]);
        }
    }
}

pub open spec fn is_digit(c: char) -> bool {
    '0' <= c && c <= '9'
}

pub open spec fn digit_val(c: char) -> int {
    (c as int) - 48
}

pub open spec fn all_digits(s: Seq<char>) -> bool {
    forall|i: int| 0 <= i < s.len() ==> is_digit(s[i])
}

/// The number a string of decimal digits denotes.
pub open spec fn digits_val(s: Seq<char>) -> int
    decreases s.len(),
{
    if s.len() == 0 {
        0
    } else {
        digits_val(s.drop_last()) * 10 + digit_val(s.last())
    }
}

pub proof fn lemma_digits_val_nonneg(s: Seq<char>)
    requires
        all_digits(s),
    ensures
        digits_val(s) >= 0,
    decreases s.len(),
{
    if s.len() != 0 {
        lemma_digits_val_nonneg(s.drop_last());
    }
}

/// Appending digits never shrinks the denoted number.
pub proof fn lemma_digits_val_prefix(s: Seq<char>, k: int)
    requires
        all_digits(s),
        0 <= k <= s.len(),
    ensures
        digits_val(s.take(k)) <= digits_val(s),
    decreases s.len() - k,
{
    if k < s.len() {
        lemma_digits_val_prefix(s.drop_last(), k);
        assert(s.drop_last().take(k) =~= s.take(k));
        lemma_digits_val_nonneg(s.drop_last());
    } else {
        assert(s.take(k) =~= s);
    }
}

pub open spec fn pow10(n: int) -> int
    decreases n,
{
    if n <= 0 {
        1
    } else {
        10 * pow10(n - 1)
    }
}

/// The first six fractional digits as micro-units, padding with zeros when
/// fewer are given and ignoring digits beyond the sixth.
pub open spec fn frac_micro(f: Seq<char>) -> int {
    if f.len() >= 6 {
        digits_val(f.take(6))
    } else {
        digits_val(f) * pow10(6 - f.len())
    }
}

/// The fixed-point micro-unit reading of a decimal string: an optional
/// sign, an integer part, and an optional fractional part separated by a
/// dot; anything else reads as nothing.
pub open spec fn fixed_of(s: Seq<char>) -> Option<int> {
    let neg = s.len() > 0 && s[0] == '-';
    let body = if s.len() > 0 && (s[0] == '-' || s[0] == '+') {
        s.drop_first()
    } else {
        s
    };
    let parts = split_on(body, '.');
    if parts.len() == 1 && parts[0].len() >= 1 && all_digits(parts[0]) {
        let m = digits_val(parts[0]) * 1000000;
        Some(
            if neg {
                -m
            } else {
                m
            },
        )
    } else if parts.len() == 2 && all_digits(parts[0]) && all_digits(parts[1]) && parts[0].len()
        + parts[1].len() >= 1 {
        let m = digits_val(parts[0]) * 1000000 + frac_micro(parts[1]);
        Some(
            if neg {
                -m
            } else {
                m
            },
        )
    } else {
        None
    }
}

/// What `parse_fixed` must return: the reading when its magnitude is
/// representable, and nothing otherwise.
pub open spec fn parse_fixed_result(s: Seq<char>) -> Option<i64> {
    match fixed_of(s) {
        Some(v) => if -0x7FFF_FFFF_FFFF_FFFF <= v <= 0x7FFF_FFFF_FFFF_FFFF {
            Some(v as i64)
        } else {
            None
        },
        None => None,
    }
}

/// A string containing the separator splits into at least two pieces.
pub proof fn lemma_split_contains(s: Seq<char>, sep: char)
    requires
        exists|i: int| 0 <= i < s.len() && s[i] == sep,
    ensures
        split_on(s, sep).len() >= 2,
    decreases s.len(),
{
    lemma_split_on_len(s, sep);
    if s[0] == sep {
        lemma_split_on_len(s.drop_first(), sep);
    } else {
        let i = choose|i: int| 0 <= i < s.len() && s[i] == sep;
        assert(s.drop_first()[i - 1] == sep);
        lemma_split_contains(s.drop_first(), sep);
    }
}

/// Reads one digit character as a number.
fn digit_of(c: char) -> (r: Option<u64>)
    ensures
        r is Some <==> is_digit(c),
        r matches Some(d) ==> d == digit_val(c) && d < 10,
{
    if '0' <= c && c <= '9' {
        Some(((c as u32) - 48) as u64)
    } else {
        None
    }
}

/// Reads a decimal string as fixed-point micro-units: an optional sign, an
/// integer part and up to six significant fractional digits. Yields
/// nothing for any other shape, or when the magnitude does not fit.
#[verifier::rlimit(100)]
pub fn parse_fixed(s: &str) -> (r: Option<i64>)
    ensures
        r == parse_fixed_result(s@),
{
    let chars = str_to_chars(s);
    let n = chars.len();
    let mut pos: usize = 0;
    let mut neg = false;
    if n > 0 && (chars[0] == '-' || chars[0] == '+') {
        neg = chars[0] == '-';
        pos = 1;
    }
    let ghost body = s@.subrange(pos as int, n as int);
    proof {
        if pos == 1 {
            assert(body =~= s@.drop_first());
        } else {
            assert(body =~= s@);
        }
    }
    // Find the first dot.
    let mut k: usize = pos;
    while k < n && chars[k] != '.'
        invariant
            pos <= k <= n,
            n == s@.len(),
            chars@ == s@,
            forall|i: int| pos <= i < k ==> s@[i] != '.',
        decreases n - k,
    {
        k = k + 1;
    }
    let ghost ipart = s@.subrange(pos as int, k as int);
    proof {
        assert(sep_free(ipart, '.'));
    }
    if k == n {
        // No dot: the whole body is the integer part.
        proof {
            assert(body =~= ipart);
            lemma_split_whole(body, '.');
        }
        if k == pos {
            return None;
        }
        let m = digits_value(&chars, pos, k);
        match m {
            None => None,
            Some(v) => {
                let total: i128 = (v as i128) * 1000000;
                proof {
                    lemma_digits_val_nonneg(ipart);
                }
                if total > 0x7FFF_FFFF_FFFF_FFFFi128 {
                    return None;
                }
                if neg {
                    Some((-total) as i64)
                } else {
                    Some(total as i64)
                }
            },
        }
    } else {
        parse_fixed_dotted(&chars, pos, k, neg, Ghost(s@))
    }
}

/// The dotted case of `parse_fixed`: a first dot stands at `k`.
#[verifier::rlimit(100)]
fn parse_fixed_dotted(chars: &Vec<char>, pos: usize, k: usize, neg: bool, Ghost(sv): Ghost<
    Seq<char>,
>) -> (r: Option<i64>)
    requires
        chars@ == sv,
        pos <= k < sv.len(),
        sv[k as int] == '.',
        forall|i: int| pos <= i < k ==> sv[i] != '.',
        neg == (sv.len() > 0 && sv[0] == '-'),
        if sv.len() > 0 && (sv[0] == '-' || sv[0] == '+') {
            pos == 1
        } else {
            pos == 0
        },
    ensures
        r == parse_fixed_result(sv),
{
    let n = chars.len();
    let ghost body = sv.subrange(pos as int, n as int);
    proof {
        if pos == 1 {
            assert(body =~= sv.drop_first());
        } else {
            assert(body =~= sv);
        }
    }
    let ghost ipart = sv.subrange(pos as int, k as int);
    let ghost fpart = sv.subrange(k + 1, n as int);
    proof {
        assert(sep_free(ipart, '.'));
        assert(body =~= ipart + seq!['.'] + fpart);
        lemma_split_step(ipart, fpart, '.');
    }
    // Any further dot makes the string unreadable.
    let mut k2: usize = k + 1;
    while k2 < n && chars[k2] != '.'
        invariant
            k + 1 <= k2 <= n,
            n == sv.len(),
            chars@ == sv,
            forall|i: int| k + 1 <= i < k2 ==> sv[i] != '.',
        decreases n - k2,
    {
        k2 = k2 + 1;
    }
    if k2 < n {
        proof {
            assert(fpart[k2 - (k + 1)] == '.');
            lemma_split_contains(fpart, '.');
        }
        return None;
    }
    proof {
        assert(sep_free(fpart, '.'));
        lemma_split_whole(fpart, '.');
        assert(split_on(body, '.') =~~= seq![ipart, fpart]);
    }
    if k == pos && k + 1 == n {
        return None;
    }
    let m = digits_value(chars, pos, k);
    let mi: i128 = match m {
        None => {
            proof {
                assert(chars@.subrange(pos as int, k as int) =~= ipart);
                if all_digits(ipart) && all_digits(fpart) {
                    lemma_digits_val_small_any(fpart);
                }
            }
            return None;
        },
        Some(v) => v as i128,
    };
    // The first six fractional digits, scaled to micro-units.
    let fstop: usize = if n - (k + 1) >= 6 {
        k + 7
    } else {
        n
    };
    let f = digits_value(chars, k + 1, fstop);
    let ghost fprefix = chars@.subrange(k + 1, fstop as int);
    let fval: u64 = match f {
        None => {
            proof {
                assert(fprefix =~= fpart.take(fstop - (k + 1)));
                if all_digits(fprefix) {
                    lemma_digits_val_small(fprefix);
                    lemma_pow10_bound(fprefix.len() as int);
                }
                assert(!all_digits(fpart)) by {
                    if all_digits(fpart) {
                        assert(forall|i: int| 0 <= i < fprefix.len() ==> fprefix[i] == fpart[i]);
                    }
                }
            }
            return None;
        },
        Some(v) => v,
    };
    // The remaining fractional digits must still be digits.
    let mut j: usize = fstop;
    while j < n
        invariant
            fstop <= j <= n,
            n == sv.len(),
            chars@ == sv,
            forall|i: int| fstop <= i < j ==> is_digit(sv[i]),
        decreases n - j,
    {
        match digit_of(chars[j]) {
            None => {
                proof {
                    assert(!is_digit(fpart[j - (k + 1)]));
                }
                return None;
            },
            Some(_) => {},
        }
        j = j + 1;
    }
    proof {
        assert(all_digits(fpart)) by {
            assert(forall|i: int| 0 <= i < fpart.len() ==> fpart[i] == sv[k + 1 + i]);
        }
        assert(fpart.take(fstop - (k + 1)) =~= sv.subrange(k + 1, fstop as int));
    }
    let frac: u64 = if n - (k + 1) >= 6 {
        fval
    } else {
        proof {
            reveal_with_fuel(pow10, 8);
            lemma_digits_val_nonneg(fpart);
            assert(fval < 1000000) by {
                lemma_digits_val_small(sv.subrange(k + 1, fstop as int));
            }
        }
        let scale: u64 = tenpow((6 - (n - (k + 1))) as u64);
        proof {
            lemma_pow10_bound((6 - (n - (k + 1))) as int);
            vstd::arithmetic::mul::lemma_mul_upper_bound(
                fval as int,
                999999,
                scale as int,
                1000000,
            );
        }
        fval * scale
    };
    proof {
        assert(frac == frac_micro(fpart));
        lemma_digits_val_nonneg(ipart);
        assert(frac <= 1000000000000u64) by {
            reveal_with_fuel(pow10, 8);
            lemma_digits_val_small_any(fpart);
        }
    }
    let total: i128 = mi * 1000000 + (frac as i128);
    if total > 0x7FFF_FFFF_FFFF_FFFFi128 {
        return None;
    }
    if neg {
        Some((-total) as i64)
    } else {
        Some(total as i64)
    }
}

pub open spec fn digit_char(n: int) -> char {
    (48 + n) as char
}

/// The decimal digits of a non-negative number, most significant first.
pub open spec fn dec_digits(n: int) -> Seq<char>
    decreases n,
{
    if n < 0 {
        Seq::empty()
    } else if n < 10 {
        seq![digit_char(n)]
    } else {
        dec_digits(n / 10).push(digit_char(n % 10))
    }
}

/// Exactly `w` decimal digits of a number, zero-padded on the left.
pub open spec fn padded_digits(n: int, w: int) -> Seq<char>
    decreases w,
{
    if w <= 0 {
        Seq::empty()
    } else {
        padded_digits(n / 10, w - 1).push(digit_char(n % 10))
    }
}

/// The decimal rendering of a micro-unit fixed-point value: a sign when
/// negative, the integer part, a dot, and six fractional digits.
pub open spec fn fixed_text(v: int) -> Seq<char> {
    let m = if v < 0 {
        -v
    } else {
        v
    };
    let b = dec_digits(m / 1000000) + seq!['.'] + padded_digits(m % 1000000, 6);
    if v < 0 {
        seq!['-'] + b
    } else {
        b
    }
}

/// The decimal rendering of a plain integer.
pub open spec fn int_text(v: int) -> Seq<char> {
    if v < 0 {
        seq!['-'] + dec_digits(-v)
    } else {
        dec_digits(v)
    }
}

fn push_one_digit(out: &mut Vec<char>, d: u128)
    requires
        d < 10,
    ensures
        final(out)@ == old(out)@.push(digit_char(d as int)),
{
    let c = char_from_small_u32(48 + (d as u32));
    out.push(c);
}

fn push_dec_digits(out: &mut Vec<char>, n: u128)
    ensures
        final(out)@ == old(out)@ + dec_digits(n as int),
    decreases n,
{
    if n < 10 {
        push_one_digit(out, n);
        proof {
            assert(out@ =~= old(out)@ + dec_digits(n as int));
        }
    } else {
        push_dec_digits(out, n / 10);
        push_one_digit(out, n % 10);
        proof {
            assert(out@ =~= old(out)@ + dec_digits(n as int));
        }
    }
}

fn push_padded_digits(out: &mut Vec<char>, n: u128, w: u64)
    ensures
        final(out)@ == old(out)@ + padded_digits(n as int, w as int),
    decreases w,
{
    if w == 0 {
        proof {
            assert(out@ =~= old(out)@ + padded_digits(n as int, w as int));
        }
    } else {
        push_padded_digits(out, n / 10, w - 1);
        push_one_digit(out, n % 10);
        proof {
            assert(out@ =~= old(out)@ + padded_digits(n as int, w as int));
        }
    }
}

/// Renders a micro-unit fixed-point value as decimal text.
pub fn fixed_to_text(v: i64) -> (r: String)
    ensures
        r@ == fixed_text(v as int),
{
    let mut out: Vec<char> = Vec::new();
    let m: u64 = if v < 0 {
        (-(v as i128)) as u64
    } else {
        v as u64
    };
    if v < 0 {
        out.push('-');
    }
    push_dec_digits(&mut out, (m as u128) / 1000000);
    out.push('.');
    push_padded_digits(&mut out, (m as u128) % 1000000, 6);
    proof {
        assert(out@ =~= fixed_text(v as int));
    }
    chars_to_string(&out)
}

/// Renders a non-negative wide micro-unit fixed-point value.
pub fn fixed_wide_to_text(v: u128) -> (r: String)
    ensures
        r@ == fixed_text(v as int),
{
    let mut out: Vec<char> = Vec::new();
    push_dec_digits(&mut out, v / 1000000);
    out.push('.');
    push_padded_digits(&mut out, v % 1000000, 6);
    proof {
        assert(out@ =~= fixed_text(v as int));
    }
    chars_to_string(&out)
}

/// Renders a plain integer as decimal text.
pub fn int_to_text(v: i64) -> (r: String)
    ensures
        r@ == int_text(v as int),
{
    let mut out: Vec<char> = Vec::new();
    let m: u64 = if v < 0 {
        (-(v as i128)) as u64
    } else {
        v as u64
    };
    if v < 0 {
        out.push('-');
    }
    push_dec_digits(&mut out, m as u128);
    proof {
        assert(out@ =~= int_text(v as int));
    }
    chars_to_string(&out)
}

/// Renders an unsigned machine integer as decimal text.
pub fn usize_to_text(v: usize) -> (r: String)
    ensures
        r@ == int_text(v as int),
{
    let mut out: Vec<char> = Vec::new();
    push_dec_digits(&mut out, v as u128);
    proof {
        assert(out@ =~= int_text(v as int));
    }
    chars_to_string(&out)
}

/// A digit string of at most `w` digits denotes less than ten to the `w`.
pub proof fn lemma_digits_val_small(s: Seq<char>)
    requires
        all_digits(s),
        s.len() <= 6,
    ensures
        digits_val(s) < pow10(s.len() as int),
    decreases s.len(),
{
    reveal_with_fuel(pow10, 8);
    if s.len() != 0 {
        lemma_digits_val_small(s.drop_last());
    }
}

/// The scaled value of up to six fractional digits stays under one unit.
pub proof fn lemma_digits_val_small_any(f: Seq<char>)
    requires
        all_digits(f),
    ensures
        0 <= frac_micro(f) < 1000000,
    decreases f.len(),
{
    reveal_with_fuel(pow10, 8);
    if f.len() >= 6 {
        assert(all_digits(f.take(6))) by {
            assert(forall|i: int| 0 <= i < 6 ==> f.take(6)[i] == f[i]);
        }
        lemma_digits_val_small(f.take(6));
        lemma_digits_val_nonneg(f.take(6));
    } else {
        lemma_digits_val_small(f);
        lemma_digits_val_nonneg(f);
        vstd::arithmetic::mul::lemma_mul_nonnegative(digits_val(f), pow10(6 - f.len()));
        if f.len() == 0 {
            vstd::arithmetic::mul::lemma_mul_upper_bound(digits_val(f), 0, pow10(6 - f.len()), 1000000);
        } else if f.len() == 1 {
            vstd::arithmetic::mul::lemma_mul_upper_bound(digits_val(f), 9, pow10(6 - f.len()), 100000);
        } else if f.len() == 2 {
            vstd::arithmetic::mul::lemma_mul_upper_bound(digits_val(f), 99, pow10(6 - f.len()), 10000);
        } else if f.len() == 3 {
            vstd::arithmetic::mul::lemma_mul_upper_bound(digits_val(f), 999, pow10(6 - f.len()), 1000);
        } else if f.len() == 4 {
            vstd::arithmetic::mul::lemma_mul_upper_bound(digits_val(f), 9999, pow10(6 - f.len()), 100);
        } else {
            assert(f.len() == 5);
            vstd::arithmetic::mul::lemma_mul_upper_bound(digits_val(f), 99999, pow10(6 - f.len()), 10);
        }
    }
}

pub proof fn lemma_pow10_bound(n: int)
    requires
        n <= 6,
    ensures
        1 <= pow10(n) <= 1000000,
{
    reveal_with_fuel(pow10, 8);
    if n <= 0 {
    } else if n == 1 {
    } else if n == 2 {
    } else if n == 3 {
    } else if n == 4 {
    } else if n == 5 {
    } else {
        assert(n == 6);
    }
}

/// Ten to the given power, for small exponents.
fn tenpow(w: u64) -> (r: u64)
    requires
        w <= 6,
    ensures
        r == pow10(w as int),
{
    proof {
        reveal_with_fuel(pow10, 8);
    }
    if w == 0 {
        1
    } else if w == 1 {
        10
    } else if w == 2 {
        100
    } else if w == 3 {
        1000
    } else if w == 4 {
        10000
    } else if w == 5 {
        100000
    } else {
        1000000
    }
}

/// The number the digit characters between `from` and `to` denote, or
/// nothing when a non-digit stands there or the value tops the range.
pub fn digits_value(chars: &Vec<char>, from: usize, to: usize) -> (r: Option<u64>)
    requires
        from <= to <= chars@.len(),
    ensures
        match r {
            Some(v) => all_digits(chars@.subrange(from as int, to as int)) && v == digits_val(
                chars@.subrange(from as int, to as int),
            ) && v <= 0x7FFF_FFFF_FFFF_FFFF,
            None => !all_digits(chars@.subrange(from as int, to as int)) || digits_val(
                chars@.subrange(from as int, to as int),
            ) > 0x7FFF_FFFF_FFFF_FFFF,
        },
{
    let ghost whole = chars@.subrange(from as int, to as int);
    let mut m: u64 = 0;
    let mut j: usize = from;
    while j < to
        invariant
            from <= j <= to <= chars@.len(),
            whole == chars@.subrange(from as int, to as int),
            all_digits(whole.take(j - from)),
            m == digits_val(whole.take(j - from)),
            m <= 0x7FFF_FFFF_FFFF_FFFF,
        decreases to - j,
    {
        let ghost prefix = whole.take(j - from);
        proof {
            assert(whole.take(j + 1 - from).drop_last() =~= prefix);
            assert(whole.take(j + 1 - from).last() == chars@[j as int]);
        }
        match digit_of(chars[j]) {
            None => {
                proof {
                    assert(!is_digit(whole[j - from]));
                }
                return None;
            },
            Some(d) => {
                if m > (0x7FFF_FFFF_FFFF_FFFFu64 - d) / 10 {
                    proof {
                        assert(digits_val(whole.take(j + 1 - from)) > 0x7FFF_FFFF_FFFF_FFFF);
                        assert(forall|i: int|
                            0 <= i < whole.len() && !is_digit(#[trigger] whole[i]) ==> !all_digits(
                                whole,
                            ));
                        if all_digits(whole) {
                            lemma_digits_val_prefix(whole, j + 1 - from);
                        }
                    }
                    return None;
                }
                m = m * 10 + d;
            },
        }
        j = j + 1;
    }
    proof {
        assert(whole.take(to - from) =~= whole);
    }
    Some(m)
}

/// The number the digit characters between `from` and `to` denote, up to
/// the full unsigned machine range; nothing when a non-digit stands there
/// or the value tops the range.
pub fn digits_value_u64(chars: &Vec<char>, from: usize, to: usize) -> (r: Option<u64>)
    requires
        from <= to <= chars@.len(),
    ensures
        match r {
            Some(v) => all_digits(chars@.subrange(from as int, to as int)) && v == digits_val(
                chars@.subrange(from as int, to as int),
            ),
            None => !all_digits(chars@.subrange(from as int, to as int)) || digits_val(
                chars@.subrange(from as int, to as int),
            ) > 0xFFFF_FFFF_FFFF_FFFF,
        },
{
    let ghost whole = chars@.subrange(from as int, to as int);
    let mut m: u64 = 0;
    let mut j: usize = from;
    while j < to
        invariant
            from <= j <= to <= chars@.len(),
            whole == chars@.subrange(from as int, to as int),
            all_digits(whole.take(j - from)),
            m == digits_val(whole.take(j - from)),
        decreases to - j,
    {
        let ghost prefix = whole.take(j - from);
        proof {
            assert(whole.take(j + 1 - from).drop_last() =~= prefix);
            assert(whole.take(j + 1 - from).last() == chars@[j as int]);
        }
        match digit_of(chars[j]) {
            None => {
                proof {
                    assert(!is_digit(whole[j - from]));
                }
                return None;
            },
            Some(d) => {
                if m > (0xFFFF_FFFF_FFFF_FFFFu64 - d) / 10 {
                    proof {
                        assert(digits_val(whole.take(j + 1 - from)) > 0xFFFF_FFFF_FFFF_FFFF);
                        if all_digits(whole) {
                            lemma_digits_val_prefix(whole, j + 1 - from);
                        }
                    }
                    return None;
                }
                m = m * 10 + d;
            },
        }
        j = j + 1;
    }
    proof {
        assert(whole.take(to - from) =~= whole);
    }
    Some(m)
}

} // verus!