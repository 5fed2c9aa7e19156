//! Text primitives: comparison, search, trimming, and numbers written as text.
//!
//! A text is modelled by its sequence of characters, the view that Verus gives to
//! `str` and `String`.
use vstd::prelude::*;
use vstd::string::*;

verus! {

/// `String::push` appends one character at the end.
pub assume_specification[ String::push ](s: &mut String, c: char)
    ensures
        final(s)@ == old(s)@.push(c),
;

/// What `str::to_lowercase` makes of a text. Lower case follows the Unicode tables,
/// so the mapping itself is left unsaid.
pub uninterp spec fn lowercase_text(s: Seq<char>) -> Seq<char>;

/// Calls `str::to_lowercase`. The result is a function of the text alone, named
/// [`lowercase_text`]; nothing is claimed of single characters.
#[verifier::external_body]
pub(crate) fn lowercase(s: &str) -> (r: String)
    ensures
        r@ == lowercase_text(s@),
{
    s.to_lowercase()
}

/// The texts of a list of strings.
pub open spec fn texts(v: Seq<String>) -> Seq<Seq<char>> {
    Seq::new(v.len(), |i: int| v[i]@)
}

/// The text of an optional string.
pub open spec fn text_option(s: Option<String>) -> Option<Seq<char>> {
    match s {
        Some(s) => Some(s@),
        None => None,
    }
}

/// The texts of a list of optional strings.
pub open spec fn text_options(v: Seq<Option<String>>) -> Seq<Option<Seq<char>>> {
    Seq::new(v.len(), |i: int| text_option(v[i]))
}

// ---------------------------------------------------------------------------
// Characters
// ---------------------------------------------------------------------------

/// The characters of `s`, in order.
pub fn chars_of(s: &str) -> (r: Vec<char>)
    ensures
        r@ == s@,
{
    let mut r: Vec<char> = Vec::new();
    let mut rest = s.chars();
    loop
        invariant
            r@.len() <= s@.len(),
            r@ == s@.take(r@.len() as int),
            vstd::std_specs::iter::IteratorSpec::remaining(&rest) == s@.skip(r@.len() as int),
        decreases s@.len() - r@.len(),
    {
        match rest.next() {
            Some(c) => {
                proof {
                    assert(s@.skip(r@.len() as int)[0] == s@[r@.len() as int]);
                    assert(s@.skip(r@.len() as int).drop_first() =~= s@.skip(r@.len() as int + 1));
                }
                r.push(c);
                assert(r@ =~= s@.take(r@.len() as int));
            },
            None => {
                assert(r@ =~= s@);
                return r;
            },
        }
    }
}

/// The text that the characters `cs[from..to]` spell.
pub fn text_of(cs: &Vec<char>, from: usize, to: usize) -> (r: String)
    requires
        from <= to <= cs@.len(),
    ensures
        r@ == cs@.subrange(from as int, to as int),
{
    let mut r: String = String::new();
    let mut i: usize = from;
    while i < to
        invariant
            from <= i <= to <= cs@.len(),
            r@ == cs@.subrange(from as int, i as int),
        decreases to - i,
    {
        r.push(cs[i]);
        assert(r@ =~= cs@.subrange(from as int, i + 1));
        i = i + 1;
    }
    r
}

/// Whether the two texts have the same characters.
pub fn text_eq(a: &str, b: &str) -> (r: bool)
    ensures
        r == (a@ == b@),
{
    let mut x = a.chars();
    let mut y = b.chars();
    let ghost mut k: int = 0;
    loop
        invariant
            0 <= k <= a@.len(),
            k <= b@.len(),
            vstd::std_specs::iter::IteratorSpec::remaining(&x) == a@.skip(k),
            vstd::std_specs::iter::IteratorSpec::remaining(&y) == b@.skip(k),
            a@.take(k) == b@.take(k),
        decreases a@.len() - k,
    {
        match (x.next(), y.next()) {
            (Some(c), Some(d)) => {
                assert(a@[k] == c && b@[k] == d);
                if c != d {
                    return false;
                }
                proof {
                    k = k + 1;
                    assert(a@.take(k) =~= a@.take(k - 1).push(c));
                    assert(b@.take(k) =~= b@.take(k - 1).push(c));
                }
            },
            (None, None) => {
                assert(a@.take(k) =~= a@);
                assert(b@.take(k) =~= b@);
                return true;
            },
            _ => {
                return false;
            },
        }
    }
}

// ---------------------------------------------------------------------------
// Order
// ---------------------------------------------------------------------------

/// Lexicographic order by code point: the order of Rust strings.
pub open spec fn text_lt(a: Seq<char>, b: Seq<char>) -> bool
    decreases a.len(),
{
    if b.len() == 0 {
        false
    } else if a.len() == 0 {
        true
    } else {
        a[0] < b[0] || (a[0] == b[0] && text_lt(a.drop_first(), b.drop_first()))
    }
}

/// No text comes before itself.
pub proof fn lemma_text_lt_irreflexive(a: Seq<char>)
    ensures
        !text_lt(a, a),
    decreases a.len(),
{
    if a.len() > 0 {
        lemma_text_lt_irreflexive(a.drop_first());
    }
}

/// The order of texts is transitive.
pub proof fn lemma_text_lt_transitive(a: Seq<char>, b: Seq<char>, c: Seq<char>)
    requires
        text_lt(a, b),
        text_lt(b, c),
    ensures
        text_lt(a, c),
    decreases a.len(),
{
    if a.len() > 0 && b.len() > 0 && c.len() > 0 && a[0] == b[0] && b[0] == c[0] {
        lemma_text_lt_transitive(a.drop_first(), b.drop_first(), c.drop_first());
    }
}

/// Of two different texts one comes before the other.
pub proof fn lemma_text_lt_total(a: Seq<char>, b: Seq<char>)
    ensures
        a == b || text_lt(a, b) || text_lt(b, a),
    decreases a.len(),
{
    if a.len() == 0 && b.len() == 0 {
        assert(a =~= b);
    } else if a.len() > 0 && b.len() > 0 && a[0] == b[0] {
        lemma_text_lt_total(a.drop_first(), b.drop_first());
        if a.drop_first() == b.drop_first() {
            assert(a =~= seq![a[0]] + a.drop_first());
            assert(b =~= seq![b[0]] + b.drop_first());
        }
    }
}

/// Whether `a` comes before `b` in the order of texts.
pub fn text_less(a: &str, b: &str) -> (r: bool)
    ensures
        r == text_lt(a@, b@),
{
    let mut x = a.chars();
    let mut y = b.chars();
    let ghost mut k: int = 0;
    proof {
        assert(a@.skip(0) =~= a@);
        assert(b@.skip(0) =~= b@);
    }
    loop
        invariant
            0 <= k <= a@.len(),
            k <= b@.len(),
            vstd::std_specs::iter::IteratorSpec::remaining(&x) == a@.skip(k),
            vstd::std_specs::iter::IteratorSpec::remaining(&y) == b@.skip(k),
            text_lt(a@, b@) == text_lt(a@.skip(k), b@.skip(k)),
        decreases a@.len() - k,
    {
        match (x.next(), y.next()) {
            (Some(c), Some(d)) => {
                proof {
                    assert(a@.skip(k)[0] == c && b@.skip(k)[0] == d);
                    assert(a@.skip(k).drop_first() =~= a@.skip(k + 1));
                    assert(b@.skip(k).drop_first() =~= b@.skip(k + 1));
                }
                if c < d {
                    return true;
                }
                if d < c {
                    return false;
                }
                proof {
                    k = k + 1;
                }
            },
            (None, Some(_)) => {
                return true;
            },
            _ => {
                return false;
            },
        }
    }
}

// ---------------------------------------------------------------------------
// Search and replacement
// ---------------------------------------------------------------------------

/// Whether `pattern` occurs in `s` at position `at`.
pub open spec fn occurs_at(s: Seq<char>, pattern: Seq<char>, at: int) -> bool {
    &&& 0 <= at
    &&& at + pattern.len() <= s.len()
    &&& s.subrange(at, at + pattern.len()) == pattern
}

/// Whether `pattern` occurs somewhere in `s`.
pub open spec fn contains_text(s: Seq<char>, pattern: Seq<char>) -> bool {
    exists|at: int| occurs_at(s, pattern, at)
}

/// Whether `s` begins with `pattern`.
pub open spec fn begins_with(s: Seq<char>, pattern: Seq<char>) -> bool {
    occurs_at(s, pattern, 0)
}

fn matches_at(s: &Vec<char>, pattern: &Vec<char>, at: usize) -> (r: bool)
    requires
        at + pattern@.len() <= s@.len(),
    ensures
        r == occurs_at(s@, pattern@, at as int),
{
    let n: usize = s.len();
    let mut i: usize = 0;
    while i < pattern.len()
        invariant
            i <= pattern@.len(),
            n == s@.len(),
            at + pattern@.len() <= n,
            forall|j: int| 0 <= j < i ==> s@[at + j] == pattern@[j],
        decreases pattern@.len() - i,
    {
        if s[at + i] != pattern[i] {
            assert(s@.subrange(at as int, at + pattern@.len())[i as int] != pattern@[i as int]);
            return false;
        }
        i = i + 1;
    }
    assert(s@.subrange(at as int, at + pattern@.len()) =~= pattern@);
    true
}

/// Whether `pattern` occurs somewhere in `s`.
pub fn has_text(s: &str, pattern: &str) -> (r: bool)
    ensures
        r == contains_text(s@, pattern@),
{
    let cs = chars_of(s);
    let ps = chars_of(pattern);
    if ps.len() > cs.len() {
        return false;
    }
    let last: usize = cs.len() - ps.len();
    let mut at: usize = 0;
    while at <= last
        invariant
            cs@ == s@,
            ps@ == pattern@,
            last + ps@.len() == cs@.len(),
            at <= last + 1,
            forall|k: int| 0 <= k < at ==> !occurs_at(cs@, ps@, k),
        decreases last + 1 - at,
    {
        if matches_at(&cs, &ps, at) {
            return true;
        }
        if at == last {
            return false;
        }
        at = at + 1;
    }
    false
}

/// Whether `s` begins with `pattern`.
pub fn has_prefix(s: &str, pattern: &str) -> (r: bool)
    ensures
        r == begins_with(s@, pattern@),
{
    let cs = chars_of(s);
    let ps = chars_of(pattern);
    if ps.len() > cs.len() {
        return false;
    }
    matches_at(&cs, &ps, 0)
}

/// `s` with every `from` replaced by `to`.
pub open spec fn with_replaced(s: Seq<char>, from: char, to: char) -> Seq<char> {
    Seq::new(s.len(), |i: int| if s[i] == from { to } else { s[i] })
}

/// `s` with every `from` replaced by `to`.
pub fn replace_char(s: &str, from: char, to: char) -> (r: String)
    ensures
        r@ == with_replaced(s@, from, to),
{
    let cs = chars_of(s);
    let mut r: String = String::new();
    let mut i: usize = 0;
    while i < cs.len()
        invariant
            cs@ == s@,
            i <= cs@.len(),
            r@ == with_replaced(s@, from, to).take(i as int),
        decreases cs@.len() - i,
    {
        let c = cs[i];
        r.push(if c == from { to } else { c });
        i = i + 1;
        assert(r@ =~= with_replaced(s@, from, to).take(i as int));
    }
    assert(r@ =~= with_replaced(s@, from, to));
    r
}

// ---------------------------------------------------------------------------
// White space
// ---------------------------------------------------------------------------

/// The characters with the Unicode property `White_Space`.
pub open spec fn is_white_space(c: char) -> bool {
    let n = c as int;
    ||| 0x9 <= n <= 0xD
    ||| n == 0x20
    ||| n == 0x85
    ||| n == 0xA0
    ||| n == 0x1680
    ||| 0x2000 <= n <= 0x200A
    ||| n == 0x2028
    ||| n == 0x2029
    ||| n == 0x202F
    ||| n == 0x205F
    ||| n == 0x3000
}

/// Whether `c` is white space.
pub fn white_space(c: char) -> (r: bool)
    ensures
        r == is_white_space(c),
{
    let n: u32 = c as u32;
    (0x9 <= n && n <= 0xD) || n == 0x20 || n == 0x85 || n == 0xA0 || n == 0x1680 || (0x2000 <= n
        && n <= 0x200A) || n == 0x2028 || n == 0x2029 || n == 0x202F || n == 0x205F || n == 0x3000
}

/// `s` without the white space it begins with.
pub open spec fn trimmed_start(s: Seq<char>) -> Seq<char>
    decreases s.len(),
{
    if s.len() > 0 && is_white_space(s[0]) {
        trimmed_start(s.drop_first())
    } else {
        s
    }
}

/// `s` without the white space it ends with.
pub open spec fn trimmed_end(s: Seq<char>) -> Seq<char>
    decreases s.len(),
{
    if s.len() > 0 && is_white_space(s.last()) {
        trimmed_end(s.drop_last())
    } else {
        s
    }
}

/// `s` without the white space at both ends.
pub open spec fn trimmed(s: Seq<char>) -> Seq<char> {
    trimmed_end(trimmed_start(s))
}

/// `s` without the white space at both ends.
pub fn trim_text(s: &str) -> (r: String)
    ensures
        r@ == trimmed(s@),
{
    let cs = chars_of(s);
    let n: usize = cs.len();
    let mut from: usize = 0;
    proof {
        assert(cs@.skip(0) =~= cs@);
    }
    while from < n && white_space(cs[from])
        invariant
            n == cs@.len(),
            from <= n,
            trimmed_start(cs@) == trimmed_start(cs@.skip(from as int)),
        decreases n - from,
    {
        proof {
            assert(cs@.skip(from as int).drop_first() =~= cs@.skip(from + 1));
            assert(cs@.skip(from as int)[0] == cs@[from as int]);
        }
        from = from + 1;
    }
    proof {
        assert(from < n ==> cs@.skip(from as int)[0] == cs@[from as int]);
        assert(trimmed_start(cs@) == cs@.skip(from as int));
        assert(cs@.skip(from as int) =~= cs@.subrange(from as int, n as int));
    }
    let ghost body = cs@.skip(from as int);
    let mut to: usize = n;
    while from < to && white_space(cs[to - 1])
        invariant
            n == cs@.len(),
            from <= to <= n,
            trimmed_end(body) == trimmed_end(cs@.subrange(from as int, to as int)),
        decreases to,
    {
        proof {
            let part = cs@.subrange(from as int, to as int);
            assert(part.last() == cs@[to - 1]);
            assert(part.drop_last() =~= cs@.subrange(from as int, to - 1));
        }
        to = to - 1;
    }
    proof {
        let part = cs@.subrange(from as int, to as int);
        assert(from < to ==> part.last() == cs@[to - 1]);
    }
    text_of(&cs, from, to)
}

// ---------------------------------------------------------------------------
// Separated lists
// ---------------------------------------------------------------------------

/// The parts of `s` between the separators.
pub open spec fn split_at_each(s: Seq<char>, separator: char) -> Seq<Seq<char>>
    decreases s.len(),
{
    if s.len() == 0 {
        seq![Seq::empty()]
    } else {
        let parts = split_at_each(s.drop_last(), separator);
        if s.last() == separator {
            parts.push(Seq::empty())
        } else {
            parts.drop_last().push(parts.last().push(s.last()))
        }
    }
}

/// The parts of a comma-separated list, trimmed, without the empty ones.
pub open spec fn listed(s: Seq<char>) -> Seq<Seq<char>> {
    nonempty_trimmed(split_at_each(s, ','))
}

/// The given parts, trimmed, without those that are then empty.
pub open spec fn nonempty_trimmed(parts: Seq<Seq<char>>) -> Seq<Seq<char>>
    decreases parts.len(),
{
    if parts.len() == 0 {
        Seq::empty()
    } else {
        let rest = nonempty_trimmed(parts.drop_last());
        let part = trimmed(parts.last());
        if part.len() == 0 {
            rest
        } else {
            rest.push(part)
        }
    }
}

proof fn lemma_split_nonempty(s: Seq<char>, separator: char)
    ensures
        split_at_each(s, separator).len() > 0,
    decreases s.len(),
{
    if s.len() > 0 {
        lemma_split_nonempty(s.drop_last(), separator);
    }
}

/// Splits a comma-separated list of filters: parts are trimmed and empty ones dropped.
pub fn split_filters(value: &str) -> (r: Vec<String>)
    ensures
        texts(r@) == listed(value@),
{
    let cs = chars_of(value);
    let mut r: Vec<String> = Vec::new();
    let mut part: String = String::new();
    let mut i: usize = 0;
    proof {
        assert(cs@.take(0) =~= Seq::empty());
        assert(split_at_each(cs@.take(0), ',').drop_last() =~= Seq::empty());
        assert(texts(r@) =~= Seq::empty());
    }
    while i < cs.len()
        invariant
            i <= cs@.len(),
            split_at_each(cs@.take(i as int), ',').len() > 0,
            part@ == split_at_each(cs@.take(i as int), ',').last(),
            texts(r@) == nonempty_trimmed(split_at_each(cs@.take(i as int), ',').drop_last()),
        decreases cs@.len() - i,
    {
        let ghost done = split_at_each(cs@.take(i as int), ',');
        proof {
            assert(cs@.take(i + 1).drop_last() =~= cs@.take(i as int));
            assert(cs@.take(i + 1).last() == cs@[i as int]);
            lemma_split_nonempty(cs@.take(i + 1), ',');
        }
        if cs[i] == ',' {
            let word = trim_text(part.as_str());
            proof {
                let all = split_at_each(cs@.take(i + 1), ',');
                assert(all.drop_last() =~= done);
                assert(done == done.drop_last().push(done.last()));
            }
            if !word.as_str().is_empty() {
                let ghost before = r@;
                r.push(word);
                assert(texts(r@) =~= texts(before).push(word@));
            }
            part = String::new();
        } else {
            part.push(cs[i]);
            proof {
                let all = split_at_each(cs@.take(i + 1), ',');
                assert(all.drop_last() =~= done.drop_last());
            }
        }
        i = i + 1;
    }
    proof {
        assert(cs@.take(i as int) =~= value@);
    }
    let word = trim_text(part.as_str());
    if !word.as_str().is_empty() {
        let ghost before = r@;
        r.push(word);
        assert(texts(r@) =~= texts(before).push(word@));
    }
    r
}

// ---------------------------------------------------------------------------
// What holds of separated lists
// ---------------------------------------------------------------------------

/// Texts put one after the other, with the separator between them.
pub open spec fn joined(parts: Seq<Seq<char>>, separator: char) -> Seq<char>
    decreases parts.len(),
{
    if parts.len() == 0 {
        Seq::empty()
    } else if parts.len() == 1 {
        parts[0]
    } else {
        joined(parts.drop_last(), separator) + seq![separator] + parts.last()
    }
}

/// Splitting at a separator in the middle splits what is before it and what is after it.
proof fn lemma_split_concat(a: Seq<char>, b: Seq<char>, separator: char)
    ensures
        split_at_each(a + seq![separator] + b, separator) == split_at_each(a, separator)
            + split_at_each(b, separator),
    decreases b.len(),
{
    let s = a + seq![separator] + b;
    if b.len() == 0 {
        assert(s.drop_last() =~= a);
        assert(s.last() == separator);
        assert(split_at_each(b, separator) =~= seq![Seq::<char>::empty()]);
        assert(split_at_each(s, separator) =~= split_at_each(a, separator) + split_at_each(
            b,
            separator,
        ));
    } else {
        lemma_split_concat(a, b.drop_last(), separator);
        lemma_split_nonempty(b.drop_last(), separator);
        assert(s.drop_last() =~= a + seq![separator] + b.drop_last());
        assert(s.last() == b.last());
        let x = split_at_each(a, separator);
        let y = split_at_each(b.drop_last(), separator);
        assert((x + y).last() == y.last());
        assert((x + y).drop_last() =~= x + y.drop_last());
        assert(split_at_each(s, separator) =~= x + split_at_each(b, separator));
    }
}

proof fn lemma_trimmed_concat(a: Seq<Seq<char>>, b: Seq<Seq<char>>)
    ensures
        nonempty_trimmed(a + b) == nonempty_trimmed(a) + nonempty_trimmed(b),
    decreases b.len(),
{
    if b.len() == 0 {
        assert(a + b =~= a);
        assert(nonempty_trimmed(a) + nonempty_trimmed(b) =~= nonempty_trimmed(a));
    } else {
        lemma_trimmed_concat(a, b.drop_last());
        assert((a + b).drop_last() =~= a + b.drop_last());
        assert((a + b).last() == b.last());
        assert(nonempty_trimmed(a + b) =~= nonempty_trimmed(a) + nonempty_trimmed(b));
    }
}

/// Whether a text has no white space at its ends.
pub open spec fn is_trimmed(s: Seq<char>) -> bool {
    s.len() > 0 ==> !is_white_space(s[0]) && !is_white_space(s.last())
}

proof fn lemma_trimmed_start(s: Seq<char>)
    ensures
        trimmed_start(s).len() > 0 ==> !is_white_space(trimmed_start(s)[0]),
        forall|c: char| #[trigger] trimmed_start(s).contains(c) ==> s.contains(c),
        s.len() > 0 && !is_white_space(s[0]) ==> trimmed_start(s) == s,
    decreases s.len(),
{
    if s.len() > 0 && is_white_space(s[0]) {
        lemma_trimmed_start(s.drop_first());
        assert forall|c: char| #[trigger] trimmed_start(s).contains(c) implies s.contains(c) by {
            assert(s.drop_first().contains(c));
            let k = choose|k: int| 0 <= k < s.drop_first().len() && s.drop_first()[k] == c;
            assert(s[k + 1] == c);
        }
    }
}

proof fn lemma_trimmed_end(s: Seq<char>)
    ensures
        trimmed_end(s).len() > 0 ==> !is_white_space(trimmed_end(s).last()) && trimmed_end(s)[0]
            == s[0],
        forall|c: char| #[trigger] trimmed_end(s).contains(c) ==> s.contains(c),
        s.len() > 0 && !is_white_space(s.last()) ==> trimmed_end(s) == s,
    decreases s.len(),
{
    if s.len() > 0 && is_white_space(s.last()) {
        lemma_trimmed_end(s.drop_last());
        assert forall|c: char| #[trigger] trimmed_end(s).contains(c) implies s.contains(c) by {
            assert(s.drop_last().contains(c));
            let k = choose|k: int| 0 <= k < s.drop_last().len() && s.drop_last()[k] == c;
            assert(s[k] == c);
        }
    }
}

/// Trimming leaves a trimmed text, of the same characters, and such a text as it is.
proof fn lemma_trimmed(s: Seq<char>)
    ensures
        is_trimmed(trimmed(s)),
        forall|c: char| #[trigger] trimmed(s).contains(c) ==> s.contains(c),
        is_trimmed(s) ==> trimmed(s) == s,
{
    lemma_trimmed_start(s);
    lemma_trimmed_end(trimmed_start(s));
    lemma_trimmed_end(s);
    if trimmed(s).len() > 0 {
        assert(trimmed(s)[0] == trimmed_start(s)[0]);
    }
}

proof fn lemma_split_parts(s: Seq<char>, separator: char)
    ensures
        forall|i: int|
            0 <= i < split_at_each(s, separator).len() ==> !(#[trigger] split_at_each(
                s,
                separator,
            )[i]).contains(separator),
    decreases s.len(),
{
    let all = split_at_each(s, separator);
    if s.len() > 0 {
        lemma_split_parts(s.drop_last(), separator);
        lemma_split_nonempty(s.drop_last(), separator);
        let parts = split_at_each(s.drop_last(), separator);
        assert forall|i: int| 0 <= i < all.len() implies !(#[trigger] all[i]).contains(
            separator,
        ) by {
            if s.last() != separator && i == all.len() - 1 {
                let last = parts[parts.len() - 1];
                assert(!last.contains(separator));
                if all[i].contains(separator) {
                    let k = choose|k: int| 0 <= k < all[i].len() && all[i][k] == separator;
                    assert(last[k] == separator);
                }
            } else if i < parts.len() {
                assert(all[i] == parts[i]);
            }
        }
    }
}

proof fn lemma_nonempty_trimmed(parts: Seq<Seq<char>>, separator: char)
    requires
        forall|i: int| 0 <= i < parts.len() ==> !(#[trigger] parts[i]).contains(separator),
    ensures
        forall|i: int|
            0 <= i < nonempty_trimmed(parts).len() ==> (#[trigger] nonempty_trimmed(
                parts,
            )[i]).len() > 0 && is_trimmed(nonempty_trimmed(parts)[i]) && !nonempty_trimmed(
                parts,
            )[i].contains(separator),
    decreases parts.len(),
{
    if parts.len() > 0 {
        let before = parts.drop_last();
        assert forall|i: int| 0 <= i < before.len() implies !(#[trigger] before[i]).contains(
            separator,
        ) by {
            assert(before[i] == parts[i]);
        }
        lemma_nonempty_trimmed(before, separator);
        lemma_trimmed(parts.last());
        assert(!parts[parts.len() - 1].contains(separator));
        assert(!trimmed(parts.last()).contains(separator));
        let all = nonempty_trimmed(parts);
        let rest = nonempty_trimmed(before);
        assert forall|i: int| 0 <= i < all.len() implies (#[trigger] all[i]).len() > 0
            && is_trimmed(all[i]) && !all[i].contains(separator) by {
            if i < rest.len() {
                assert(all[i] == rest[i]);
            } else {
                assert(all[i] == trimmed(parts.last()));
            }
        }
    }
}

proof fn lemma_unsplit(s: Seq<char>, separator: char)
    requires
        !s.contains(separator),
    ensures
        split_at_each(s, separator) == seq![s],
    decreases s.len(),
{
    if s.len() > 0 {
        let t = s.drop_last();
        if t.contains(separator) {
            let k = choose|k: int| 0 <= k < t.len() && t[k] == separator;
            assert(s[k] == separator);
        }
        assert(s[s.len() - 1] == s.last());
        lemma_unsplit(t, separator);
        assert(t.push(s.last()) =~= s);
        assert(split_at_each(s, separator) =~= seq![s]);
    } else {
        assert(s =~= Seq::empty());
    }
}

/// A list of lists is the lists one after the other.
pub proof fn law_lists_are_split_at_commas(a: Seq<char>, b: Seq<char>)
    ensures
        listed(a + seq![','] + b) == listed(a) + listed(b),
        listed(Seq::empty()) == Seq::<Seq<char>>::empty(),
{
    lemma_split_concat(a, b, ',');
    lemma_trimmed_concat(split_at_each(a, ','), split_at_each(b, ','));
    reveal_with_fuel(nonempty_trimmed, 2);
    let none = split_at_each(Seq::empty(), ',');
    assert(none =~= seq![Seq::<char>::empty()]);
    lemma_trimmed(Seq::empty());
    assert(none.last().len() == 0);
    assert(trimmed(none.last()) =~= Seq::empty());
    assert(none.drop_last() =~= Seq::empty());
}

/// No part of a list is empty, holds a comma or has white space at an end.
pub proof fn law_list_parts_are_clean(s: Seq<char>, i: int)
    requires
        0 <= i < listed(s).len(),
    ensures
        listed(s)[i].len() > 0,
        !listed(s)[i].contains(','),
        is_trimmed(listed(s)[i]),
{
    lemma_split_parts(s, ',');
    lemma_nonempty_trimmed(split_at_each(s, ','), ',');
}

proof fn lemma_joined_is_listed(parts: Seq<Seq<char>>)
    requires
        forall|i: int|
            0 <= i < parts.len() ==> (#[trigger] parts[i]).len() > 0 && is_trimmed(parts[i])
                && !parts[i].contains(','),
    ensures
        listed(joined(parts, ',')) == parts,
    decreases parts.len(),
{
    if parts.len() == 0 {
        law_lists_are_split_at_commas(Seq::empty(), Seq::empty());
        assert(parts =~= Seq::empty());
    } else {
        let last = parts[parts.len() - 1];
        lemma_unsplit(last, ',');
        lemma_trimmed(last);
        assert(seq![last].drop_last() =~= Seq::<Seq<char>>::empty());
        assert(seq![last].last() == last);
        reveal_with_fuel(nonempty_trimmed, 2);
        assert(listed(last) =~= seq![last]);
        if parts.len() == 1 {
            assert(parts =~= seq![last]);
        } else {
            let before = parts.drop_last();
            assert forall|i: int| 0 <= i < before.len() implies (#[trigger] before[i]).len() > 0
                && is_trimmed(before[i]) && !before[i].contains(',') by {
                assert(before[i] == parts[i]);
            }
            lemma_joined_is_listed(before);
            law_lists_are_split_at_commas(joined(before, ','), last);
            assert(parts =~= before + seq![last]);
        }
    }
}

/// The parts of a list, put together again, are the same list.
pub proof fn law_list_is_read_back(s: Seq<char>)
    ensures
        listed(joined(listed(s), ',')) == listed(s),
{
    assert forall|i: int| 0 <= i < listed(s).len() implies (#[trigger] listed(s)[i]).len() > 0
        && is_trimmed(listed(s)[i]) && !listed(s)[i].contains(',') by {
        law_list_parts_are_clean(s, i);
    }
    lemma_joined_is_listed(listed(s));
}

// ---------------------------------------------------------------------------
// Laws of characters and parts
// ---------------------------------------------------------------------------

/// A text contains what stands anywhere in it, and nothing else.
pub proof fn law_contained_texts(s: Seq<char>, before: Seq<char>, part: Seq<char>, after: Seq<char>)
    ensures
        s == before + part + after ==> contains_text(s, part),
        contains_text(s, part) ==> exists|a: Seq<char>, b: Seq<char>|
            s == #[trigger] (a + part + b),
{
    if s == before + part + after {
        assert(s.subrange(before.len() as int, before.len() as int + part.len() as int) =~= part);
        assert(occurs_at(s, part, before.len() as int));
    }
    if contains_text(s, part) {
        let at = choose|at: int| occurs_at(s, part, at);
        let a = s.take(at);
        let b = s.skip(at + part.len());
        assert(s =~= a + part + b);
    }
}

/// A text begins with what stands at its start, and with nothing else.
pub proof fn law_beginnings(s: Seq<char>, part: Seq<char>, rest: Seq<char>)
    ensures
        begins_with(part + rest, part),
        begins_with(s, part) ==> s.len() >= part.len() && s == part + s.skip(part.len() as int),
{
    assert((part + rest).subrange(0, part.len() as int) =~= part);
    if begins_with(s, part) {
        assert(s =~= part + s.skip(part.len() as int));
    }
}

/// Replacing a character changes that character, wherever it stands, and no other.
pub proof fn law_replaced_characters(s: Seq<char>, from: char, to: char, i: int)
    requires
        0 <= i < s.len(),
    ensures
        with_replaced(s, from, to).len() == s.len(),
        s[i] == from ==> with_replaced(s, from, to)[i] == to,
        s[i] != from ==> with_replaced(s, from, to)[i] == s[i],
{
}

/// Texts are ordered by the first character in which they differ, and a text comes before
/// every longer one that begins with it.
pub proof fn law_texts_are_ordered_by_the_first_difference(
    start: Seq<char>,
    c: char,
    d: char,
    s: Seq<char>,
    t: Seq<char>,
)
    ensures
        c < d ==> text_lt(start + seq![c] + s, start + seq![d] + t),
        c < d ==> !text_lt(start + seq![d] + t, start + seq![c] + s),
        text_lt(start, start + seq![d] + t),
        !text_lt(start + seq![d] + t, start),
        !text_lt(start, start),
    decreases start.len(),
{
    lemma_text_lt_irreflexive(start);
    let a = start + seq![c] + s;
    let b = start + seq![d] + t;
    if start.len() == 0 {
        assert(a[0] == c);
        assert(b[0] == d);
    } else {
        let rest = start.drop_first();
        law_texts_are_ordered_by_the_first_difference(rest, c, d, s, t);
        assert(a[0] == start[0] && b[0] == start[0]);
        assert(a.drop_first() =~= rest + seq![c] + s);
        assert(b.drop_first() =~= rest + seq![d] + t);
    }
}

/// White space is the tabulator, the line feed and the three characters after it, the space,
/// and the characters of other scripts that are set as spaces.
pub proof fn law_white_space(c: char)
    ensures
        is_white_space(' '),
        is_white_space('\t'),
        is_white_space('\n'),
        is_white_space('\r'),
        '!' <= c <= '~' ==> !is_white_space(c),
        is_white_space(c) <==> {
            let n = c as int;
            ||| n == 9 || n == 10 || n == 11 || n == 12 || n == 13 || n == 32
            ||| n == 133 || n == 160 || n == 5760
            ||| 8192 <= n <= 8202
            ||| n == 8232 || n == 8233 || n == 8239 || n == 8287 || n == 12288
        },
{
}

proof fn lemma_trimmed_start_of(blank: Seq<char>, s: Seq<char>)
    requires
        forall|i: int| 0 <= i < blank.len() ==> is_white_space(#[trigger] blank[i]),
        s.len() > 0 ==> !is_white_space(s[0]),
    ensures
        trimmed_start(blank + s) == s,
    decreases blank.len(),
{
    if blank.len() == 0 {
        assert(blank + s =~= s);
    } else {
        let rest = blank.drop_first();
        assert forall|i: int| 0 <= i < rest.len() implies is_white_space(#[trigger] rest[i]) by {
            assert(rest[i] == blank[i + 1]);
        }
        assert((blank + s)[0] == blank[0]);
        assert((blank + s).drop_first() =~= rest + s);
        lemma_trimmed_start_of(rest, s);
    }
}

proof fn lemma_trimmed_end_of(s: Seq<char>, blank: Seq<char>)
    requires
        forall|i: int| 0 <= i < blank.len() ==> is_white_space(#[trigger] blank[i]),
        s.len() > 0 ==> !is_white_space(s.last()),
    ensures
        trimmed_end(s + blank) == s,
    decreases blank.len(),
{
    if blank.len() == 0 {
        assert(s + blank =~= s);
    } else {
        let rest = blank.drop_last();
        assert forall|i: int| 0 <= i < rest.len() implies is_white_space(#[trigger] rest[i]) by {
            assert(rest[i] == blank[i]);
        }
        assert((s + blank).last() == blank.last());
        assert((s + blank).drop_last() =~= s + rest);
        lemma_trimmed_end_of(s, rest);
    }
}

/// Trimming takes away the white space before and after a text, all of it, and nothing
/// between.
pub proof fn law_white_space_around_is_trimmed(
    before: Seq<char>,
    s: Seq<char>,
    after: Seq<char>,
)
    requires
        forall|i: int| 0 <= i < before.len() ==> is_white_space(#[trigger] before[i]),
        forall|i: int| 0 <= i < after.len() ==> is_white_space(#[trigger] after[i]),
        s.len() > 0 ==> !is_white_space(s[0]) && !is_white_space(s.last()),
    ensures
        trimmed(before + s + after) == s,
{
    if s.len() > 0 {
        assert(before + s + after =~= before + (s + after));
        assert((s + after)[0] == s[0]);
        lemma_trimmed_start_of(before, s + after);
        lemma_trimmed_end_of(s, after);
    } else {
        let blank = before + after;
        assert(before + s + after =~= blank + Seq::<char>::empty());
        assert forall|i: int| 0 <= i < blank.len() implies is_white_space(#[trigger] blank[i]) by {
            if i < before.len() {
                assert(blank[i] == before[i]);
            } else {
                assert(blank[i] == after[i - before.len()]);
            }
        }
        lemma_trimmed_start_of(blank, Seq::empty());
        assert(trimmed_end(Seq::<char>::empty()) =~= Seq::empty());
        assert(s =~= Seq::empty());
    }
}

/// A text without a comma lists one part, the text without the white space around it, or
/// none where that is empty.
pub proof fn law_text_without_comma_lists_one_part(s: Seq<char>)
    requires
        !s.contains(','),
    ensures
        trimmed(s).len() > 0 ==> listed(s) == seq![trimmed(s)],
        trimmed(s).len() == 0 ==> listed(s) == Seq::<Seq<char>>::empty(),
{
    lemma_unsplit(s, ',');
    let parts = seq![s];
    reveal_with_fuel(nonempty_trimmed, 2);
    assert(parts.drop_last() =~= Seq::empty());
    assert(parts.last() == s);
    assert(nonempty_trimmed(parts.drop_last()) =~= Seq::<Seq<char>>::empty());
    if trimmed(s).len() > 0 {
        assert(listed(s) =~= seq![trimmed(s)]);
    }
}

} // verus!
