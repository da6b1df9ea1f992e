//! Character-level text helpers used by the engine's string rules.

use vstd::prelude::*;

verus! {

/// The Unicode `White_Space` property, as `char::is_whitespace` defines it.
pub open spec fn is_ws(c: char) -> bool {
    ||| c == '\t' || c == '\n' || c == '\u{b}' || c == '\u{c}' || c == '\r' || c == ' '
    ||| c == '\u{85}' || c == '\u{a0}' || c == '\u{1680}'
    ||| ('\u{2000}' <= c && c <= '\u{200a}')
    ||| c == '\u{2028}' || c == '\u{2029}' || c == '\u{202f}' || c == '\u{205f}' || c == '\u{3000}'
}

/// Decide whether `c` is Unicode white space.
pub fn is_whitespace(c: char) -> (r: bool)
    ensures
        r == is_ws(c),
{
    c == '\t' || c == '\n' || c == '\u{b}' || c == '\u{c}' || c == '\r' || c == ' '
        || c == '\u{85}' || c == '\u{a0}' || c == '\u{1680}'
        || ('\u{2000}' <= c && c <= '\u{200a}')
        || c == '\u{2028}' || c == '\u{2029}' || c == '\u{202f}' || c == '\u{205f}'
        || c == '\u{3000}'
}

/// `p` is a prefix of `s`.
pub open spec fn has_prefix(s: Seq<char>, p: Seq<char>) -> bool {
    p.len() <= s.len() && s.subrange(0, p.len() as int) == p
}

/// Equality of two string slices, decided character by character.
pub fn str_eq(a: &str, b: &str) -> (r: bool)
    ensures
        r == (a@ == b@),
{
    let n = a.unicode_len();
    let m = b.unicode_len();
    if n != m {
        return false;
    }
    let mut i: usize = 0;
    while i < n
        invariant
            n == a@.len(),
            m == b@.len(),
            n == m,
            i <= n,
            forall|j: int| 0 <= j < i ==> a@[j] == b@[j],
        decreases n - i,
    {
        if a.get_char(i) != b.get_char(i) {
            return false;
        }
        i = i + 1;
    }
    assert(a@ =~= b@);
    true
}

/// Whether `s` starts with `p`.
pub fn starts_with(s: &str, p: &str) -> (r: bool)
    ensures
        r == has_prefix(s@, p@),
{
    let n = s.unicode_len();
    let m = p.unicode_len();
    if m > n {
        return false;
    }
    let mut i: usize = 0;
    while i < m
        invariant
            n == s@.len(),
            m == p@.len(),
            m <= n,
            i <= m,
            forall|j: int| 0 <= j < i ==> s@[j] == p@[j],
        decreases m - i,
    {
        if s.get_char(i) != p.get_char(i) {
            assert(s@.subrange(0, m as int)[i as int] != p@[i as int]);
            return false;
        }
        i = i + 1;
    }
    assert(s@.subrange(0, m as int) =~= p@);
    true
}

/// Whether `s` holds the character `c`.
pub fn contains_char(s: &str, c: char) -> (r: bool)
    ensures
        r == s@.contains(c),
{
    let n = s.unicode_len();
    let mut i: usize = 0;
    while i < n
        invariant
            n == s@.len(),
            i <= n,
            forall|j: int| 0 <= j < i ==> s@[j] != c,
        decreases n - i,
    {
        if s.get_char(i) == c {
            assert(s@[i as int] == c);
            return true;
        }
        i = i + 1;
    }
    false
}

/// Number of bytes the UTF-8 encoding of `c` takes.
pub open spec fn char_len(c: char) -> nat {
    if (c as u32) < 0x80 {
        1
    } else if (c as u32) < 0x800 {
        2
    } else if (c as u32) < 0x10000 {
        3
    } else {
        4
    }
}

/// Byte offset, in the UTF-8 encoding of `s`, of the character at index `i`.
pub open spec fn byte_offset(s: Seq<char>, i: int) -> nat
    decreases i,
{
    if i <= 0 {
        0
    } else {
        byte_offset(s, i - 1) + char_len(s[i - 1])
    }
}

/// The UTF-8 length of one character.
pub fn utf8_len(c: char) -> (r: usize)
    ensures
        r == char_len(c),
{
    let v = c as u32;
    if v < 0x80 {
        1
    } else if v < 0x800 {
        2
    } else if v < 0x10000 {
        3
    } else {
        4
    }
}

/// The characters of a string slice, in order.
pub fn to_chars(s: &str) -> (r: Vec<char>)
    ensures
        r@ == s@,
{
    let n = s.unicode_len();
    let mut r: Vec<char> = Vec::new();
    let mut i: usize = 0;
    while i < n
        invariant
            n == s@.len(),
            i <= n,
            r@ == s@.take(i as int),
        decreases n - i,
    {
        r.push(s.get_char(i));
        assert(s@.take(i + 1) =~= s@.take(i as int).push(s@[i as int]));
        i = i + 1;
    }
    assert(s@.take(n as int) =~= s@);
    r
}

/// A string made of the characters `v[from..to]`.
pub fn string_of(v: &Vec<char>, from: usize, to: usize) -> (r: String)
    requires
        from <= to <= v@.len(),
    ensures
        r@ == v@.subrange(from as int, to as int),
{
    let mut r = String::new();
    let mut i = from;
    while i < to
        invariant
            from <= i <= to <= v@.len(),
            r@ == v@.subrange(from as int, i as int),
        decreases to - i,
    {
        push_char(&mut r, v[i]);
        assert(v@.subrange(from as int, i + 1) =~= v@.subrange(from as int, i as int).push(v@[i as int]));
        i = i + 1;
    }
    r
}

/// `n` occurs somewhere inside `h`.
pub open spec fn has_substring(h: Seq<char>, n: Seq<char>) -> bool {
    exists|i: int| 0 <= i && i + n.len() <= h.len() && #[trigger] h.subrange(i, i + n.len()) == n
}

/// Whether `n` occurs inside `h`.
pub fn contains_str(h: &Vec<char>, n: &Vec<char>) -> (r: bool)
    ensures
        r == has_substring(h@, n@),
{
    let hl = h.len();
    let nl = n.len();
    if nl > hl {
        assert(!has_substring(h@, n@));
        return false;
    }
    if nl == 0 {
        assert(h@.subrange(0, 0 + n@.len() as int) =~= n@);
        return true;
    }
    let mut i: usize = 0;
    while i <= hl - nl
        invariant
            hl == h@.len(),
            nl == n@.len(),
            0 < nl <= hl,
            i <= hl - nl + 1,
            forall|k: int| 0 <= k < i ==> #[trigger] h@.subrange(k, k + nl) != n@,
        decreases hl - nl + 1 - i,
    {
        let mut j: usize = 0;
        let mut same = true;
        while j < nl
            invariant
                hl == h@.len(),
                nl == n@.len(),
                i + nl <= hl,
                j <= nl,
                same ==> forall|t: int| 0 <= t < j ==> h@[i + t] == n@[t],
                !same ==> h@.subrange(i as int, i + nl) != n@,
            decreases nl - j,
        {
            if h[i + j] != n[j] {
                same = false;
                assert(h@.subrange(i as int, i + nl)[j as int] != n@[j as int]);
            }
            j = j + 1;
        }
        if same {
            assert(h@.subrange(i as int, i + nl) =~= n@);
            return true;
        }
        i = i + 1;
    }
    assert forall|k: int| 0 <= k && k + n@.len() <= h@.len() implies #[trigger] h@.subrange(k, k + n@.len()) != n@ by {
        assert(k < i);
    }
    false
}

/// Appends one character to a string.
#[verifier::external_body]
pub(crate) fn push_char(s: &mut String, c: char)
    ensures
        final(s)@ == old(s)@.push(c),
{
    s.push(c);
}

/// Appends a string slice to a string.
pub fn push_text(s: &mut String, t: &str)
    ensures
        final(s)@ == old(s)@ + t@,
{
    let n = t.unicode_len();
    let mut i: usize = 0;
    while i < n
        invariant
            n == t@.len(),
            i <= n,
            s@ == old(s)@ + t@.take(i as int),
        decreases n - i,
    {
        push_char(s, t.get_char(i));
        assert(t@.take(i + 1) =~= t@.take(i as int).push(t@[i as int]));
        assert(old(s)@ + t@.take(i + 1) =~= old(s)@ + t@.take(i as int) + seq![t@[i as int]]);
        i = i + 1;
    }
    assert(t@.take(n as int) =~= t@);
}

/// Strict lexicographic order on character sequences, by code point (the
/// order of `str` and `String`).
pub open spec fn lex_lt(a: Seq<char>, b: Seq<char>) -> bool
    decreases a.len(),
{
    if b.len() == 0 {
        false
    } else if a.len() == 0 {
        true
    } else if a[0] != b[0] {
        (a[0] as int) < (b[0] as int)
    } else {
        lex_lt(a.drop_first(), b.drop_first())
    }
}

/// Lexicographic order is transitive.
pub proof fn lemma_lex_lt_transitive(a: Seq<char>, b: Seq<char>, c: Seq<char>)
    requires
        lex_lt(a, b),
        lex_lt(b, c),
    ensures
        lex_lt(a, c),
    decreases a.len(),
{
    if a.len() > 0 && b.len() > 0 && c.len() > 0 && a[0] == b[0] && b[0] == c[0] {
        lemma_lex_lt_transitive(a.drop_first(), b.drop_first(), c.drop_first());
    }
}

/// Lexicographic order is irreflexive and total on distinct sequences.
pub proof fn lemma_lex_lt_total(a: Seq<char>, b: Seq<char>)
    ensures
        !lex_lt(a, a),
        a != b ==> (lex_lt(a, b) || lex_lt(b, a)),
        !(lex_lt(a, b) && lex_lt(b, a)),
    decreases a.len(),
{
    if a.len() > 0 && b.len() > 0 {
        lemma_lex_lt_total(a.drop_first(), b.drop_first());
        lemma_lex_lt_total(a.drop_first(), a.drop_first());
        if a[0] != b[0] {
            assert((a[0] as int) != (b[0] as int));
        }
        if a[0] == b[0] && a != b {
            assert(a.drop_first() != b.drop_first()) by {
                if a.drop_first() == b.drop_first() {
                    assert(a =~= seq![a[0]] + a.drop_first());
                    assert(b =~= seq![b[0]] + b.drop_first());
                }
            }
        }
    } else if a.len() > 0 {
        lemma_lex_lt_total(a.drop_first(), a.drop_first());
    } else if b.len() == 0 {
        assert(a =~= b);
    }
}

/// Whether `a` sorts strictly before `b`.
pub fn str_lt(a: &str, b: &str) -> (r: bool)
    ensures
        r == lex_lt(a@, b@),
{
    let n = a.unicode_len();
    let m = b.unicode_len();
    let mut i: usize = 0;
    assert(a@.skip(0) =~= a@);
    assert(b@.skip(0) =~= b@);
    while i < n && i < m
        invariant
            n == a@.len(),
            m == b@.len(),
            i <= n,
            i <= m,
            lex_lt(a@, b@) == lex_lt(a@.skip(i as int), b@.skip(i as int)),
        decreases n - i,
    {
        let x = a.get_char(i);
        let y = b.get_char(i);
        assert(a@.skip(i as int)[0] == x && b@.skip(i as int)[0] == y);
        if x != y {
            return (x as u32) < (y as u32);
        }
        assert(a@.skip(i as int).drop_first() =~= a@.skip(i as int + 1));
        assert(b@.skip(i as int).drop_first() =~= b@.skip(i as int + 1));
        i = i + 1;
    }
    i < m
}

/// The decimal digits of a number.
pub open spec fn decimal(n: nat) -> Seq<char>
    decreases n,
{
    if n < 10 {
        seq![digit_char(n)]
    } else {
        decimal(n / 10).push(digit_char(n % 10))
    }
}

pub open spec fn digit_char(d: nat) -> char {
    if d == 0 { '0' } else if d == 1 { '1' } else if d == 2 { '2' } else if d == 3 { '3' }
    else if d == 4 { '4' } else if d == 5 { '5' } else if d == 6 { '6' } else if d == 7 { '7' }
    else if d == 8 { '8' } else { '9' }
}

fn digit(d: u64) -> (c: char)
    requires
        d < 10,
    ensures
        c == digit_char(d as nat),
{
    if d == 0 { '0' } else if d == 1 { '1' } else if d == 2 { '2' } else if d == 3 { '3' }
    else if d == 4 { '4' } else if d == 5 { '5' } else if d == 6 { '6' } else if d == 7 { '7' }
    else if d == 8 { '8' } else { '9' }
}

/// The decimal form of a number.
pub fn decimal_text(n: u64) -> (s: String)
    ensures
        s@ == decimal(n as nat),
    decreases n,
{
    if n < 10 {
        let mut s = String::new();
        push_char(&mut s, digit(n));
        assert(s@ =~= seq![digit_char(n as nat)]);
        s
    } else {
        let mut s = decimal_text(n / 10);
        push_char(&mut s, digit(n % 10));
        s
    }
}

pub open spec fn texts_of(v: Seq<String>) -> Seq<Seq<char>> {
    v.map_values(|s: String| s@)
}

/// Each text sorts strictly before the next.
pub open spec fn strictly_sorted(xs: Seq<Seq<char>>) -> bool {
    forall|i: int, j: int| 0 <= i < j < xs.len() ==> lex_lt(#[trigger] xs[i], #[trigger] xs[j])
}

/// The set of a sequence with one more element.
pub proof fn lemma_push_to_set<T>(s: Seq<T>, x: T)
    ensures
        s.push(x).to_set() == s.to_set().insert(x),
{
    let t = s.push(x);
    assert forall|y: T| t.to_set().contains(y) <==> s.to_set().insert(x).contains(y) by {
        if t.contains(y) {
            let k = choose|k: int| 0 <= k < t.len() && t[k] == y;
            if k < s.len() {
                assert(s[k] == y);
            }
        }
        if s.contains(y) {
            let k = choose|k: int| 0 <= k < s.len() && s[k] == y;
            assert(t[k] == y);
        }
        if y == x {
            assert(t[s.len() as int] == y);
        }
    }
    assert(t.to_set() =~= s.to_set().insert(x));
}

/// Merges two strictly sorted lists into one, keeping each text once.
fn merge_unique(a: Vec<String>, b: Vec<String>) -> (r: Vec<String>)
    requires
        strictly_sorted(texts_of(a@)),
        strictly_sorted(texts_of(b@)),
    ensures
        strictly_sorted(texts_of(r@)),
        texts_of(r@).to_set() == texts_of(a@).to_set() + texts_of(b@).to_set(),
{
    let ghost av = texts_of(a@);
    let ghost bv = texts_of(b@);
    let mut out: Vec<String> = Vec::new();
    let mut i: usize = 0;
    let mut j: usize = 0;
    while i < a.len() || j < b.len()
        invariant
            i <= a@.len(),
            j <= b@.len(),
            av == texts_of(a@),
            bv == texts_of(b@),
            strictly_sorted(av),
            strictly_sorted(bv),
            strictly_sorted(texts_of(out@)),
            texts_of(out@).to_set() == av.take(i as int).to_set() + bv.take(j as int).to_set(),
            out@.len() > 0 ==> (forall|k: int| i <= k < av.len() ==> lex_lt(texts_of(out@).last(), #[trigger] av[k])),
            out@.len() > 0 ==> (forall|k: int| j <= k < bv.len() ==> lex_lt(texts_of(out@).last(), #[trigger] bv[k])),
        decreases a@.len() - i + b@.len() - j,
    {
        let ghost ov = texts_of(out@);
        let take_a: bool;
        let take_b: bool;
        if i < a.len() && j < b.len() {
            if str_lt(a[i].as_str(), b[j].as_str()) {
                take_a = true;
                take_b = false;
            } else if str_lt(b[j].as_str(), a[i].as_str()) {
                take_a = false;
                take_b = true;
            } else {
                proof {
                    lemma_lex_lt_total(av[i as int], bv[j as int]);
                }
                take_a = true;
                take_b = true;
            }
        } else if i < a.len() {
            take_a = true;
            take_b = false;
        } else {
            take_a = false;
            take_b = true;
        }
        let next = if take_a { a[i].clone() } else { b[j].clone() };
        let ghost nv = next@;
        proof {
            assert(take_a ==> nv == av[i as int]);
            assert(!take_a ==> nv == bv[j as int]);
            assert(take_a && take_b ==> av[i as int] == bv[j as int]);
            // everything still to come sorts after `next`
            assert forall|k: int| i < k < av.len() implies lex_lt(nv, #[trigger] av[k]) by {
                if take_a {
                } else {
                    // next is bv[j] < av[i] <= av[k]
                    lemma_lex_lt_total(av[i as int], bv[j as int]);
                    lemma_lex_lt_transitive(nv, av[i as int], av[k]);
                }
            }
            assert forall|k: int| j < k < bv.len() implies lex_lt(nv, #[trigger] bv[k]) by {
                if !take_a || take_b {
                } else {
                    lemma_lex_lt_transitive(nv, bv[j as int], bv[k]);
                }
            }
            if !take_a && i < av.len() {
                lemma_lex_lt_total(av[i as int], bv[j as int]);
            }
        }
        out.push(next);
        proof {
            assert(texts_of(out@) =~= ov.push(nv));
            assert forall|x: int, y: int| 0 <= x < y < texts_of(out@).len() implies lex_lt(#[trigger] texts_of(out@)[x], #[trigger] texts_of(out@)[y]) by {
                if y == ov.len() && x < ov.len() {
                    if x < ov.len() - 1 {
                        lemma_lex_lt_transitive(ov[x], ov.last(), nv);
                    }
                }
            }
        }
        let ghost oi = i;
        let ghost oj = j;
        if take_a {
            i = i + 1;
        }
        if take_b {
            j = j + 1;
        }
        proof {
            assert(av.take(i as int).to_set() =~= if take_a { av.take(oi as int).to_set().insert(av[oi as int]) } else { av.take(oi as int).to_set() }) by {
                if take_a {
                    assert(av.take(i as int) =~= av.take(oi as int).push(av[oi as int]));
                    lemma_push_to_set(av.take(oi as int), av[oi as int]);
                }
            }
            assert(bv.take(j as int).to_set() =~= if take_b { bv.take(oj as int).to_set().insert(bv[oj as int]) } else { bv.take(oj as int).to_set() }) by {
                if take_b {
                    assert(bv.take(j as int) =~= bv.take(oj as int).push(bv[oj as int]));
                    lemma_push_to_set(bv.take(oj as int), bv[oj as int]);
                }
            }
            assert(texts_of(out@).to_set() =~= ov.to_set().insert(nv)) by {
                assert(texts_of(out@) =~= ov.push(nv));
                lemma_push_to_set(ov, nv);
            }
            assert(texts_of(out@).to_set() =~= av.take(i as int).to_set() + bv.take(j as int).to_set());
        }
    }
    assert(av.take(a@.len() as int) =~= av);
    assert(bv.take(b@.len() as int) =~= bv);
    out
}

/// Sorts texts strictly, keeping each text once.
pub fn sort_unique(v: Vec<String>) -> (r: Vec<String>)
    ensures
        strictly_sorted(texts_of(r@)),
        texts_of(r@).to_set() == texts_of(v@).to_set(),
    decreases v@.len(),
{
    if v.len() <= 1 {
        return v;
    }
    let mut left = v;
    let ghost whole = texts_of(left@);
    let mid = left.len() / 2;
    let right = left.split_off(mid);
    assert(whole =~= texts_of(left@) + texts_of(right@));
    let l = sort_unique(left);
    let r = sort_unique(right);
    let merged = merge_unique(l, r);
    proof {
        vstd::seq_lib::seq_to_set_distributes_over_add::<Seq<char>>(texts_of(left@), texts_of(right@));
    }
    merged
}

/// `s` without leading white space.
pub open spec fn trim_left(s: Seq<char>) -> Seq<char>
    decreases s.len(),
{
    if s.len() > 0 && is_ws(s[0]) {
        trim_left(s.drop_first())
    } else {
        s
    }
}

/// `s` without trailing white space.
pub open spec fn trim_right(s: Seq<char>) -> Seq<char>
    decreases s.len(),
{
    if s.len() > 0 && is_ws(s.last()) {
        trim_right(s.drop_last())
    } else {
        s
    }
}

pub proof fn lemma_trim_left_from(s: Seq<char>, lo: int)
    requires
        0 <= lo <= s.len(),
        forall|k: int| 0 <= k < lo ==> is_ws(s[k]),
        lo < s.len() ==> !is_ws(s[lo]),
    ensures
        trim_left(s) == s.subrange(lo, s.len() as int),
    decreases lo,
{
    if lo > 0 {
        assert(is_ws(s[0]));
        let t = s.drop_first();
        assert forall|k: int| 0 <= k < lo - 1 implies is_ws(t[k]) by {
            assert(t[k] == s[k + 1]);
        }
        lemma_trim_left_from(t, lo - 1);
        assert(t.subrange(lo - 1, t.len() as int) =~= s.subrange(lo, s.len() as int));
    } else {
        assert(s.subrange(0, s.len() as int) =~= s);
    }
}

pub proof fn lemma_trim_right_to(s: Seq<char>, hi: int)
    requires
        0 <= hi <= s.len(),
        forall|k: int| hi <= k < s.len() ==> is_ws(s[k]),
        hi > 0 ==> !is_ws(s[hi - 1]),
    ensures
        trim_right(s) == s.subrange(0, hi),
    decreases s.len() - hi,
{
    if hi < s.len() {
        assert(is_ws(s.last()));
        let t = s.drop_last();
        lemma_trim_right_to(t, hi);
        assert(t.subrange(0, hi) =~= s.subrange(0, hi));
    } else {
        assert(s.subrange(0, hi) =~= s);
    }
}

/// The elements joined with `sep` between them.
pub open spec fn join_with(s: Seq<Seq<char>>, sep: Seq<char>) -> Seq<char>
    decreases s.len(),
{
    if s.len() == 0 {
        Seq::empty()
    } else if s.len() == 1 {
        s[0]
    } else {
        join_with(s.drop_last(), sep) + sep + s.last()
    }
}

/// Joins texts with a separator.
pub fn join_texts(parts: &Vec<String>, sep: &str) -> (r: String)
    ensures
        r@ == join_with(texts_of(parts@), sep@),
{
    let ghost pv = texts_of(parts@);
    let mut out = String::new();
    let mut i: usize = 0;
    while i < parts.len()
        invariant
            i <= parts@.len(),
            pv == texts_of(parts@),
            out@ == join_with(pv.take(i as int), sep@),
        decreases parts@.len() - i,
    {
        assert(pv.take(i as int + 1).drop_last() =~= pv.take(i as int));
        assert(pv.take(i as int + 1).last() == parts@[i as int]@);
        if i > 0 {
            push_text(&mut out, sep);
        } else {
            assert(out@ =~= Seq::<char>::empty());
        }
        push_text(&mut out, parts[i].as_str());
        if i == 0 {
            assert(out@ =~= pv.take(1)[0]);
        }
        i = i + 1;
    }
    assert(pv.take(parts@.len() as int) =~= pv);
    out
}


/// `s` without leading and trailing white space, as `str::trim` gives it.
pub open spec fn trimmed(s: Seq<char>) -> Seq<char> {
    trim_right(trim_left(s))
}

/// `str::trim`: the text without leading and trailing white space.
pub fn trim_text(s: &str) -> (r: String)
    ensures
        r@ == trimmed(s@),
{
    let chars = to_chars(s);
    let n = chars.len();
    let mut lo: usize = 0;
    while lo < n && is_whitespace(chars[lo])
        invariant
            n == chars@.len(),
            lo <= n,
            forall|j: int| 0 <= j < lo ==> is_ws(chars@[j]),
        decreases n - lo,
    {
        lo = lo + 1;
    }
    let mut hi: usize = n;
    while hi > lo && is_whitespace(chars[hi - 1])
        invariant
            n == chars@.len(),
            lo <= hi <= n,
            forall|j: int| hi <= j < n ==> is_ws(chars@[j]),
        decreases hi,
    {
        hi = hi - 1;
    }
    proof {
        lemma_trim_left_from(chars@, lo as int);
        let t = chars@.subrange(lo as int, n as int);
        assert forall|k: int| hi - lo <= k < t.len() implies is_ws(t[k]) by {
            assert(t[k] == chars@[lo + k]);
        }
        if hi > lo {
            assert(t[hi - lo - 1] == chars@[hi - 1]);
        }
        lemma_trim_right_to(t, hi - lo);
        assert(t.subrange(0, hi - lo) =~= chars@.subrange(lo as int, hi as int));
    }
    string_of(&chars, lo, hi)
}

/// `p` is a suffix of `s`.
pub open spec fn has_suffix(s: Seq<char>, p: Seq<char>) -> bool {
    p.len() <= s.len() && s.subrange(s.len() - p.len(), s.len() as int) == p
}

/// Whether `s` ends with `p`.
pub fn ends_with(s: &str, p: &str) -> (r: bool)
    ensures
        r == has_suffix(s@, p@),
{
    let n = s.unicode_len();
    let m = p.unicode_len();
    if m > n {
        return false;
    }
    let d = n - m;
    let mut i: usize = 0;
    while i < m
        invariant
            n == s@.len(),
            m == p@.len(),
            d == n - m,
            i <= m,
            forall|j: int| 0 <= j < i ==> s@[d + j] == p@[j],
        decreases m - i,
    {
        if s.get_char(d + i) != p.get_char(i) {
            assert(s@.subrange(d as int, n as int)[i as int] != p@[i as int]);
            return false;
        }
        i = i + 1;
    }
    assert(s@.subrange(d as int, n as int) =~= p@);
    true
}


/// `s` without the leading characters that `set` holds.
pub open spec fn trim_left_by(s: Seq<char>, set: Seq<char>) -> Seq<char>
    decreases s.len(),
{
    if s.len() > 0 && set.contains(s[0]) {
        trim_left_by(s.drop_first(), set)
    } else {
        s
    }
}

/// `s` without the trailing characters that `set` holds.
pub open spec fn trim_right_by(s: Seq<char>, set: Seq<char>) -> Seq<char>
    decreases s.len(),
{
    if s.len() > 0 && set.contains(s.last()) {
        trim_right_by(s.drop_last(), set)
    } else {
        s
    }
}

proof fn lemma_trim_left_by_from(s: Seq<char>, set: Seq<char>, lo: int)
    requires
        0 <= lo <= s.len(),
        forall|k: int| 0 <= k < lo ==> set.contains(s[k]),
        lo < s.len() ==> !set.contains(s[lo]),
    ensures
        trim_left_by(s, set) == s.subrange(lo, s.len() as int),
    decreases lo,
{
    if lo > 0 {
        let t = s.drop_first();
        assert forall|k: int| 0 <= k < lo - 1 implies set.contains(t[k]) by {
            assert(t[k] == s[k + 1]);
        }
        lemma_trim_left_by_from(t, set, lo - 1);
        assert(t.subrange(lo - 1, t.len() as int) =~= s.subrange(lo, s.len() as int));
    } else {
        assert(s.subrange(0, s.len() as int) =~= s);
    }
}

proof fn lemma_trim_right_by_to(s: Seq<char>, set: Seq<char>, hi: int)
    requires
        0 <= hi <= s.len(),
        forall|k: int| hi <= k < s.len() ==> set.contains(s[k]),
        hi > 0 ==> !set.contains(s[hi - 1]),
    ensures
        trim_right_by(s, set) == s.subrange(0, hi),
    decreases s.len() - hi,
{
    if hi < s.len() {
        let t = s.drop_last();
        lemma_trim_right_by_to(t, set, hi);
        assert(t.subrange(0, hi) =~= s.subrange(0, hi));
    } else {
        assert(s.subrange(0, hi) =~= s);
    }
}

/// `str::trim_matches` with the characters of `set`: the text without the
/// leading and trailing characters that `set` holds.
pub fn trim_chars(s: &str, set: &str) -> (r: String)
    ensures
        r@ == trim_right_by(trim_left_by(s@, set@), set@),
{
    let chars = to_chars(s);
    let n = chars.len();
    let mut lo: usize = 0;
    while lo < n && contains_char(set, chars[lo])
        invariant
            n == chars@.len(),
            lo <= n,
            forall|j: int| 0 <= j < lo ==> set@.contains(chars@[j]),
        decreases n - lo,
    {
        lo = lo + 1;
    }
    let mut hi: usize = n;
    while hi > lo && contains_char(set, chars[hi - 1])
        invariant
            n == chars@.len(),
            lo <= hi <= n,
            forall|j: int| hi <= j < n ==> set@.contains(chars@[j]),
        decreases hi,
    {
        hi = hi - 1;
    }
    proof {
        lemma_trim_left_by_from(chars@, set@, lo as int);
        let t = chars@.subrange(lo as int, n as int);
        assert forall|k: int| hi - lo <= k < t.len() implies set@.contains(t[k]) by {
            assert(t[k] == chars@[lo + k]);
        }
        if hi > lo {
            assert(t[hi - lo - 1] == chars@[hi - 1]);
        }
        lemma_trim_right_by_to(t, set@, hi - lo);
        assert(t.subrange(0, hi - lo) =~= chars@.subrange(lo as int, hi as int));
    }
    string_of(&chars, lo, hi)
}

/// What follows the last character of `s` that `seps` holds (all of `s`
/// when it holds none).
pub open spec fn last_segment(s: Seq<char>, seps: Seq<char>) -> Seq<char>
    decreases s.len(),
{
    if s.len() == 0 {
        s
    } else if seps.contains(s.last()) {
        Seq::empty()
    } else {
        last_segment(s.drop_last(), seps).push(s.last())
    }
}

/// `s.rsplit(seps).next()`: the text after the last separator.
pub fn last_segment_of(s: &str, seps: &str) -> (r: String)
    ensures
        r@ == last_segment(s@, seps@),
{
    let chars = to_chars(s);
    let n = chars.len();
    let mut lo: usize = n;
    assert(s@.take(n as int) =~= s@);
    assert(last_segment(s@, seps@) + chars@.subrange(n as int, n as int) =~= last_segment(s@, seps@));
    while lo > 0 && !contains_char(seps, chars[lo - 1])
        invariant
            n == chars@.len(),
            lo <= n,
            chars@ == s@,
            last_segment(s@, seps@) == last_segment(s@.take(lo as int), seps@) + chars@.subrange(lo as int, n as int),
        decreases lo,
    {
        let ghost t = s@.take(lo as int);
        assert(t.drop_last() =~= s@.take(lo - 1));
        assert(t.last() == chars@[lo - 1]);
        assert(chars@.subrange(lo - 1, n as int) =~= seq![chars@[lo - 1]] + chars@.subrange(lo as int, n as int));
        assert(last_segment(t, seps@) == last_segment(s@.take(lo - 1), seps@).push(chars@[lo - 1]));
        assert(last_segment(s@.take(lo - 1), seps@).push(chars@[lo - 1]) + chars@.subrange(lo as int, n as int)
            =~= last_segment(s@.take(lo - 1), seps@) + chars@.subrange(lo - 1, n as int));
        lo = lo - 1;
    }
    proof {
        if lo > 0 {
            let t = s@.take(lo as int);
            assert(t.last() == chars@[lo - 1]);
            assert(last_segment(t, seps@) =~= Seq::<char>::empty());
        } else {
            assert(last_segment(s@.take(0), seps@) =~= Seq::<char>::empty());
        }
        assert(Seq::<char>::empty() + chars@.subrange(lo as int, n as int) =~= chars@.subrange(lo as int, n as int));
    }
    string_of(&chars, lo, n)
}

/// The pieces of a path between its `/` separators, empty ones included.
pub open spec fn path_pieces(p: Seq<char>) -> Seq<Seq<char>>
    decreases p.len(),
{
    if p.len() == 0 {
        seq![Seq::<char>::empty()]
    } else {
        let ps = path_pieces(p.drop_last());
        if p.last() == '/' {
            ps.push(Seq::empty())
        } else {
            ps.update(ps.len() - 1, ps.last().push(p.last()))
        }
    }
}

/// The pieces that name a component: neither empty nor `.`.
pub open spec fn named_pieces(ps: Seq<Seq<char>>) -> Seq<Seq<char>>
    decreases ps.len(),
{
    if ps.len() == 0 {
        Seq::empty()
    } else {
        named_pieces(ps.drop_last()) + if ps.last().len() > 0 && ps.last() != seq!['.'] {
            seq![ps.last()]
        } else {
            Seq::empty()
        }
    }
}

/// The components a path compares by: the root `/` of an absolute path or
/// the `.` a relative path starts with, then its named pieces (repeated
/// separators, a trailing one and inner `.` pieces count for nothing).
pub open spec fn path_components(p: Seq<char>) -> Seq<Seq<char>> {
    let ps = path_pieces(p);
    let head = if p.len() > 0 && p[0] == '/' {
        seq![seq!['/']]
    } else if ps[0] == seq!['.'] {
        seq![seq!['.']]
    } else {
        Seq::empty()
    };
    head + named_pieces(ps)
}

/// Two paths name the same file as path comparison sees it.
pub open spec fn same_path(a: Seq<char>, b: Seq<char>) -> bool {
    path_components(a) == path_components(b)
}

proof fn lemma_pieces_nonempty(p: Seq<char>)
    ensures
        path_pieces(p).len() >= 1,
    decreases p.len(),
{
    if p.len() > 0 {
        lemma_pieces_nonempty(p.drop_last());
    }
}

fn chars_copy(v: &Vec<char>) -> (r: Vec<char>)
    ensures
        r@ == v@,
{
    let mut out: Vec<char> = Vec::new();
    let mut i: usize = 0;
    while i < v.len()
        invariant
            i <= v@.len(),
            out@ == v@.take(i as int),
        decreases v@.len() - i,
    {
        out.push(v[i]);
        i = i + 1;
        assert(out@ =~= v@.take(i as int));
    }
    assert(v@.take(v@.len() as int) =~= v@);
    out
}

fn chars_same(a: &Vec<char>, b: &Vec<char>) -> (r: bool)
    ensures
        r == (a@ == b@),
{
    if a.len() != b.len() {
        return false;
    }
    let mut i: usize = 0;
    while i < a.len()
        invariant
            a@.len() == b@.len(),
            i <= a@.len(),
            forall|j: int| 0 <= j < i ==> a@[j] == b@[j],
        decreases a@.len() - i,
    {
        if a[i] != b[i] {
            return false;
        }
        i = i + 1;
    }
    assert(a@ =~= b@);
    true
}

pub open spec fn pieces_view(v: Seq<Vec<char>>) -> Seq<Seq<char>> {
    v.map_values(|x: Vec<char>| x@)
}

/// The components of a path, as `path_components` describes them.
pub fn path_components_of(path: &str) -> (r: Vec<Vec<char>>)
    ensures
        pieces_view(r@) == path_components(path@),
{
    let p = to_chars(path);
    let mut pieces: Vec<Vec<char>> = Vec::new();
    let mut cur: Vec<char> = Vec::new();
    let mut i: usize = 0;
    assert(p@.take(0) =~= Seq::<char>::empty());
    while i < p.len()
        invariant
            i <= p@.len(),
            path_pieces(p@.take(i as int)) == pieces_view(pieces@).push(cur@),
        decreases p@.len() - i,
    {
        let c = p[i];
        let ghost before = pieces_view(pieces@);
        let ghost cur0 = cur@;
        assert(p@.take(i as int + 1).drop_last() =~= p@.take(i as int));
        if c == '/' {
            pieces.push(cur);
            cur = Vec::new();
            assert(pieces_view(pieces@) =~= before.push(cur0));
            assert(path_pieces(p@.take(i as int + 1)) =~= pieces_view(pieces@).push(cur@));
        } else {
            cur.push(c);
            assert(path_pieces(p@.take(i as int + 1)) =~= before.push(cur0).update(before.len() as int, cur0.push(c)));
            assert(pieces_view(pieces@).push(cur@) =~= before.push(cur0).update(before.len() as int, cur0.push(c)));
        }
        i = i + 1;
    }
    assert(p@.take(p@.len() as int) =~= p@);
    pieces.push(cur);
    let ghost ps = pieces_view(pieces@);
    assert(ps == path_pieces(path@));
    let mut dot: Vec<char> = Vec::new();
    dot.push('.');
    assert(dot@ =~= seq!['.']);
    let mut out: Vec<Vec<char>> = Vec::new();
    if p.len() > 0 && p[0] == '/' {
        let mut root: Vec<char> = Vec::new();
        root.push('/');
        out.push(root);
        assert(pieces_view(out@) =~= seq![seq!['/']]);
    } else if chars_same(&pieces[0], &dot) {
        out.push(dot);
        assert(pieces_view(out@) =~= seq![seq!['.']]);
        dot = Vec::new();
        dot.push('.');
        assert(dot@ =~= seq!['.']);
    } else {
        assert(pieces_view(out@) =~= Seq::<Seq<char>>::empty());
    }
    let ghost head = pieces_view(out@);
    assert(path_components(path@) == head + named_pieces(ps));
    let mut k: usize = 0;
    while k < pieces.len()
        invariant
            k <= pieces@.len(),
            ps == pieces_view(pieces@),
            dot@ == seq!['.'],
            pieces_view(out@) == head + named_pieces(ps.take(k as int)),
        decreases pieces@.len() - k,
    {
        assert(ps.take(k as int + 1).drop_last() =~= ps.take(k as int));
        assert(ps.take(k as int + 1).last() == pieces@[k as int]@);
        let ghost o0 = pieces_view(out@);
        if pieces[k].len() > 0 && !chars_same(&pieces[k], &dot) {
            out.push(chars_copy(&pieces[k]));
            assert(pieces_view(out@) =~= o0.push(pieces@[k as int]@));
        }
        assert(pieces_view(out@) =~= head + named_pieces(ps.take(k as int + 1)));
        k = k + 1;
    }
    assert(ps.take(ps.len() as int) =~= ps);
    out
}

/// Whether two paths name the same file as path comparison sees it.
pub fn same_path_str(a: &str, b: &str) -> (r: bool)
    ensures
        r == same_path(a@, b@),
{
    let x = path_components_of(a);
    let y = path_components_of(b);
    if x.len() != y.len() {
        assert(pieces_view(x@).len() != pieces_view(y@).len());
        return false;
    }
    let mut i: usize = 0;
    while i < x.len()
        invariant
            x@.len() == y@.len(),
            pieces_view(x@) == path_components(a@),
            pieces_view(y@) == path_components(b@),
            i <= x@.len(),
            forall|j: int| 0 <= j < i ==> x@[j]@ == y@[j]@,
        decreases x@.len() - i,
    {
        if !chars_same(&x[i], &y[i]) {
            assert(pieces_view(x@)[i as int] == x@[i as int]@);
            assert(pieces_view(y@)[i as int] == y@[i as int]@);
            assert(pieces_view(x@)[i as int] != pieces_view(y@)[i as int]);
            assert(pieces_view(x@) != pieces_view(y@));
            assert(!same_path(a@, b@));
            return false;
        }
        i = i + 1;
    }
    assert(pieces_view(x@) =~= pieces_view(y@));
    true
}

} // verus!
