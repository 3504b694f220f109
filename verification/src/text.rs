use vstd::prelude::*;

verus! {

/// Appends one character to a string: a call of `String::push`, which the
/// standard library documents as appending the given `char` to the end of the
/// `String`.
#[verifier::external_body]
pub(crate) fn push_char(s: &mut String, c: char)
    ensures
        final(s)@ == old(s)@.push(c),
{
    s.push(c);
}

/// The characters with the Unicode property White_Space.
pub open spec fn white_space(c: char) -> bool {
    ('\u{9}' <= c <= '\u{d}') || c == ' ' || c == '\u{85}' || c == '\u{a0}' || c == '\u{1680}'
        || ('\u{2000}' <= c <= '\u{200a}') || c == '\u{2028}' || c == '\u{2029}' || c
        == '\u{202f}' || c == '\u{205f}' || c == '\u{3000}'
}

/// Whether `c` is whitespace, as `char::is_whitespace` decides: whether it has the Unicode
/// property White_Space.
pub fn is_whitespace(c: char) -> (b: bool)
    ensures
        b == white_space(c),
{
    ('\u{9}' <= c && c <= '\u{d}') || c == ' ' || c == '\u{85}' || c == '\u{a0}' || c == '\u{1680}'
        || ('\u{2000}' <= c && c <= '\u{200a}') || c == '\u{2028}' || c == '\u{2029}' || c
        == '\u{202f}' || c == '\u{205f}' || c == '\u{3000}'
}

/// Splitting the characters `s` at whitespace, read from the left: the finished words and
/// the word being read.
pub open spec fn split_state(s: Seq<char>) -> (Seq<Seq<char>>, Seq<char>)
    decreases s.len(),
{
    if s.len() == 0 {
        (seq![], seq![])
    } else {
        let (words, current) = split_state(s.drop_last());
        let c = s.last();
        if white_space(c) {
            if current.len() > 0 {
                (words.push(current), seq![])
            } else {
                (words, current)
            }
        } else {
            (words, current.push(c))
        }
    }
}

/// The words of `s`: its maximal runs of characters other than whitespace, in order.
pub open spec fn words(s: Seq<char>) -> Seq<Seq<char>> {
    let (words, current) = split_state(s);
    if current.len() > 0 {
        words.push(current)
    } else {
        words
    }
}

/// The words of `s`, separated by any amount of whitespace.
pub fn split_whitespace(s: &str) -> (parts: Vec<Vec<char>>)
    ensures
        parts@.len() == words(s@).len(),
        forall|i: int| 0 <= i < parts@.len() ==> #[trigger] parts@[i]@ == words(s@)[i],
{
    let chars = chars_of(s);
    let mut parts: Vec<Vec<char>> = Vec::new();
    let mut current: Vec<char> = Vec::new();
    let mut i: usize = 0;
    while i < chars.len()
        invariant
            i <= chars@.len(),
            chars@ == s@,
            parts@.len() == split_state(s@.take(i as int)).0.len(),
            forall|k: int|
                0 <= k < parts@.len() ==> #[trigger] parts@[k]@ == split_state(s@.take(i as int)).0[k],
            current@ == split_state(s@.take(i as int)).1,
        decreases chars@.len() - i,
    {
        let c = chars[i];
        assert(s@.take((i + 1) as int).drop_last() =~= s@.take(i as int));
        if is_whitespace(c) {
            if current.len() > 0 {
                let word = current;
                parts.push(word);
                current = Vec::new();
            }
        } else {
            current.push(c);
        }
        i = i + 1;
    }
    assert(s@.take(chars@.len() as int) =~= s@);
    if current.len() > 0 {
        parts.push(current);
    }
    parts
}

/// Whether two character sequences are equal.
pub fn chars_equal(a: &Vec<char>, b: &str) -> (r: bool)
    ensures
        r == (a@ == b@),
{
    let bc = chars_of(b);
    if a.len() != bc.len() {
        return false;
    }
    let mut i: usize = 0;
    while i < a.len()
        invariant
            i <= a@.len(),
            a@.len() == bc@.len(),
            bc@ == b@,
            forall|k: int| 0 <= k < i ==> a@[k] == bc@[k],
        decreases a@.len() - i,
    {
        if a[i] != bc[i] {
            return false;
        }
        i = i + 1;
    }
    assert(a@ =~= bc@);
    true
}

/// Whether `c` occurs in `a`.
pub fn contains_char(a: &Vec<char>, c: char) -> (r: bool)
    ensures
        r == a@.contains(c),
{
    let mut i: usize = 0;
    while i < a.len()
        invariant
            i <= a@.len(),
            forall|k: int| 0 <= k < i ==> a@[k] != c,
        decreases a@.len() - i,
    {
        if a[i] == c {
            return true;
        }
        i = i + 1;
    }
    false
}

/// The string of the characters `a`.
pub fn string_of(a: &Vec<char>) -> (s: String)
    ensures
        s@ == a@,
{
    let mut s = String::new();
    let mut i: usize = 0;
    while i < a.len()
        invariant
            i <= a@.len(),
            s@ == a@.take(i as int),
        decreases a@.len() - i,
    {
        push_char(&mut s, a[i]);
        assert(a@.take((i + 1) as int) =~= a@.take(i as int).push(a@[i as int]));
        i = i + 1;
    }
    assert(a@.take(a@.len() as int) =~= a@);
    s
}

/// The characters of `s`.
pub fn chars_of(s: &str) -> (v: Vec<char>)
    ensures
        v@ == s@,
{
    broadcast use vstd::string::axiom_spec_iter;
    let mut v: Vec<char> = Vec::new();
    for c in it: s.chars()
        invariant
            v@ == it.seq().take(it.index() as int),
    {
        v.push(c);
    }
    v
}

/// `s` without the whitespace it starts with.
pub open spec fn trim_start(s: Seq<char>) -> Seq<char>
    decreases s.len(),
{
    if s.len() > 0 && white_space(s[0]) {
        trim_start(s.drop_first())
    } else {
        s
    }
}

/// `s` without the whitespace it ends with.
pub open spec fn trim_end(s: Seq<char>) -> Seq<char>
    decreases s.len(),
{
    if s.len() > 0 && white_space(s.last()) {
        trim_end(s.drop_last())
    } else {
        s
    }
}

/// `s` without leading and trailing whitespace.
pub open spec fn trimmed(s: Seq<char>) -> Seq<char> {
    trim_end(trim_start(s))
}

/// The string `s` without leading and trailing whitespace.
pub fn trim(s: &str) -> (t: String)
    ensures
        t@ == trimmed(s@),
{
    let chars = chars_of(s);
    let n = chars.len();
    let mut i: usize = 0;
    assert(s@.subrange(0, n as int) =~= s@);
    while i < n && is_whitespace(chars[i])
        invariant
            i <= n,
            n == chars@.len(),
            chars@ == s@,
            trim_start(s@) == trim_start(s@.subrange(i as int, n as int)),
        decreases n - i,
    {
        assert(s@.subrange(i as int, n as int).drop_first() =~= s@.subrange(i + 1, n as int));
        i = i + 1;
    }
    assert(trim_start(s@) == s@.subrange(i as int, n as int));
    let mut j: usize = n;
    while j > i && is_whitespace(chars[j - 1])
        invariant
            i <= j <= n,
            n == chars@.len(),
            chars@ == s@,
            trimmed(s@) == trim_end(s@.subrange(i as int, j as int)),
        decreases j - i,
    {
        assert(s@.subrange(i as int, j as int).drop_last() =~= s@.subrange(i as int, j - 1));
        j = j - 1;
    }
    let mut t = String::new();
    let mut k: usize = i;
    while k < j
        invariant
            i <= k <= j <= n,
            n == chars@.len(),
            chars@ == s@,
            t@ == s@.subrange(i as int, k as int),
        decreases j - k,
    {
        push_char(&mut t, chars[k]);
        assert(s@.subrange(i as int, k + 1) =~= s@.subrange(i as int, k as int).push(s@[k as int]));
        k = k + 1;
    }
    t
}

/// The string `s` without the whitespace it ends with.
pub fn trim_end_of(s: &str) -> (t: Vec<char>)
    ensures
        t@ == trim_end(s@),
{
    let chars = chars_of(s);
    let mut j: usize = chars.len();
    assert(s@.subrange(0, j as int) =~= s@);
    while j > 0 && is_whitespace(chars[j - 1])
        invariant
            j <= chars@.len(),
            chars@ == s@,
            trim_end(s@) == trim_end(s@.subrange(0, j as int)),
        decreases j,
    {
        assert(s@.subrange(0, j as int).drop_last() =~= s@.subrange(0, j - 1));
        j = j - 1;
    }
    let mut t: Vec<char> = Vec::new();
    let mut k: usize = 0;
    while k < j
        invariant
            k <= j <= chars@.len(),
            chars@ == s@,
            t@ == s@.subrange(0, k as int),
        decreases j - k,
    {
        t.push(chars[k]);
        assert(s@.subrange(0, k + 1) =~= s@.subrange(0, k as int).push(s@[k as int]));
        k = k + 1;
    }
    t
}

/// Every character of `cs` is a decimal digit.
pub open spec fn all_digits(cs: Seq<char>) -> bool {
    forall|i: int| 0 <= i < cs.len() ==> '0' <= #[trigger] cs[i] <= '9'
}

/// The number that the decimal digits `cs` write.
pub open spec fn digits_value(cs: Seq<char>) -> nat
    decreases cs.len(),
{
    if cs.len() == 0 {
        0
    } else {
        digits_value(cs.drop_last()) * 10 + (cs.last() as nat - 48) as nat
    }
}

/// Reading `cs` as an unsigned number: an optional `+`, then one or more decimal digits,
/// whose value must fit a `usize`.
pub open spec fn parse_usize(cs: Seq<char>) -> Option<nat> {
    let d = if cs.len() > 0 && cs[0] == '+' {
        cs.drop_first()
    } else {
        cs
    };
    if d.len() > 0 && all_digits(d) && digits_value(d) <= usize::MAX {
        Some(digits_value(d))
    } else {
        None
    }
}

proof fn lemma_digits_grow(cs: Seq<char>, j: int)
    requires
        all_digits(cs),
        0 <= j <= cs.len(),
    ensures
        digits_value(cs.take(j)) <= digits_value(cs),
    decreases cs.len(),
{
    if j < cs.len() {
        assert(all_digits(cs.drop_last()));
        assert(cs.drop_last().take(j) =~= cs.take(j));
        lemma_digits_grow(cs.drop_last(), j);
    } else {
        assert(cs.take(j) =~= cs);
    }
}

/// Reads the characters `cs` as an unsigned number.
pub fn parse_usize_chars(cs: &Vec<char>) -> (r: Option<usize>)
    ensures
        r matches Some(n) ==> parse_usize(cs@) == Some(n as nat),
        r is None ==> parse_usize(cs@) is None,
{
    let ghost d = if cs@.len() > 0 && cs@[0] == '+' {
        cs@.drop_first()
    } else {
        cs@
    };
    let start: usize = if cs.len() > 0 && cs[0] == '+' {
        1
    } else {
        0
    };
    assert(d =~= cs@.subrange(start as int, cs@.len() as int));
    if start == cs.len() {
        return None;
    }
    let mut value: usize = 0;
    let mut i: usize = start;
    while i < cs.len()
        invariant
            start <= i <= cs@.len(),
            start < cs@.len(),
            d == (if cs@.len() > 0 && cs@[0] == '+' {
                cs@.drop_first()
            } else {
                cs@
            }),
            d =~= cs@.subrange(start as int, cs@.len() as int),
            all_digits(d.take(i - start)),
            value == digits_value(d.take(i - start)),
        decreases cs@.len() - i,
    {
        let c = cs[i];
        assert(d.take(i + 1 - start).drop_last() =~= d.take(i - start));
        assert(d[i - start] == c);
        assert(d.take(i + 1 - start).last() == c);
        if !('0' <= c && c <= '9') {
            assert(!all_digits(d));
            return None;
        }
        let digit = (c as u32 - 48) as usize;
        match value.checked_mul(10) {
            None => {
                proof {
                    if all_digits(d) {
                        lemma_digits_grow(d, i + 1 - start);
                    }
                }
                return None;
            },
            Some(v) => match v.checked_add(digit) {
                None => {
                    proof {
                        if all_digits(d) {
                            lemma_digits_grow(d, i + 1 - start);
                        }
                    }
                    return None;
                },
                Some(w) => {
                    value = w;
                },
            },
        }
        i = i + 1;
    }
    assert(d.take(cs@.len() - start) =~= d);
    Some(value)
}

/// Whether `a` starts with the characters of `b`.
pub fn starts_with_chars(a: &Vec<char>, b: &str) -> (r: bool)
    ensures
        r == (a@.len() >= b@.len() && a@.take(b@.len() as int) == b@),
{
    let bc = chars_of(b);
    if a.len() < bc.len() {
        return false;
    }
    let mut i: usize = 0;
    while i < bc.len()
        invariant
            i <= bc@.len(),
            bc@.len() <= a@.len(),
            bc@ == b@,
            forall|k: int| 0 <= k < i ==> a@[k] == bc@[k],
        decreases bc@.len() - i,
    {
        if a[i] != bc[i] {
            assert(a@.take(b@.len() as int)[i as int] != b@[i as int]);
            return false;
        }
        i = i + 1;
    }
    assert(a@.take(b@.len() as int) =~= b@);
    true
}

/// The characters of `a` from index `start` on.
pub fn chars_from(a: &Vec<char>, start: usize) -> (r: Vec<char>)
    requires
        start <= a@.len(),
    ensures
        r@ == a@.skip(start as int),
{
    let mut r: Vec<char> = Vec::new();
    let mut i: usize = start;
    while i < a.len()
        invariant
            start <= i <= a@.len(),
            r@ == a@.subrange(start as int, i as int),
        decreases a@.len() - i,
    {
        r.push(a[i]);
        assert(a@.subrange(start as int, i + 1) =~= a@.subrange(start as int, i as int).push(a@[i as int]));
        i = i + 1;
    }
    assert(a@.subrange(start as int, a@.len() as int) =~= a@.skip(start as int));
    r
}

} // verus!
