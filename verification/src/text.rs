//! Text helpers: splitting, trimming, letter case and decimal numbers, over sequences of
//! characters.
use vstd::prelude::*;
use vstd::string::*;

verus! {

/// `String::push`: the character is appended.
pub assume_specification[ String::push ](s: &mut String, c: char)
    ensures
        final(s)@ == old(s)@.push(c),
;

/// The pieces of `s` between the separators `sep`; one more piece than there are separators.
pub open spec fn split_on(s: Seq<char>, sep: char) -> Seq<Seq<char>>
    decreases s.len(),
{
    if s.len() == 0 {
        seq![Seq::empty()]
    } else {
        let before = split_on(s.drop_last(), sep);
        if s.last() == sep {
            before.push(Seq::empty())
        } else {
            before.drop_last().push(before.last().push(s.last()))
        }
    }
}

/// `pieces` with `sep` between each two.
pub open spec fn join_with(pieces: Seq<Seq<char>>, sep: char) -> Seq<char>
    decreases pieces.len(),
{
    if pieces.len() == 0 {
        Seq::empty()
    } else if pieces.len() == 1 {
        pieces[0]
    } else {
        join_with(pieces.drop_last(), sep).push(sep) + pieces.last()
    }
}

/// Joining the pieces of a text gives the text back, and no piece holds the separator.
pub proof fn lemma_split_join(s: Seq<char>, sep: char)
    ensures
        split_on(s, sep).len() > 0,
        join_with(split_on(s, sep), sep) == s,
        forall|i: int| #![auto] 0 <= i < split_on(s, sep).len() ==> !split_on(s, sep)[i].contains(sep),
    decreases s.len(),
{
    if s.len() > 0 {
        lemma_split_join(s.drop_last(), sep);
        let before = split_on(s.drop_last(), sep);
        let after = split_on(s, sep);
        assert(s == s.drop_last().push(s.last()));
        if s.last() == sep {
            assert(after.drop_last() == before);
            assert(join_with(before, sep).push(sep) + Seq::<char>::empty() == s);
        } else {
            let last = before.last().push(s.last());
            assert(after.drop_last() == before.drop_last());
            assert(!last.contains(sep)) by {
                assert(!before.last().contains(sep));
            }
            assert forall|i: int| #![auto] 0 <= i < after.len() implies !after[i].contains(sep) by {
                if i < after.len() - 1 {
                    assert(after[i] == before[i]);
                }
            }
            if before.len() == 1 {
                assert(join_with(after, sep) == last);
            } else {
                assert(join_with(after, sep) == join_with(before.drop_last(), sep).push(sep) + last);
            }
            assert(join_with(after, sep) == join_with(before, sep).push(s.last()));
        }
    }
}

/// A text without the separator is one piece.
pub proof fn lemma_split_one(s: Seq<char>, sep: char)
    requires
        !s.contains(sep),
    ensures
        split_on(s, sep) == seq![s],
    decreases s.len(),
{
    if s.len() > 0 {
        assert(s.last() != sep) by {
            assert(s[s.len() - 1] == s.last());
        }
        assert(!s.drop_last().contains(sep)) by {
            assert forall|i: int| 0 <= i < s.drop_last().len() implies s.drop_last()[i] != sep by {
                assert(s.drop_last()[i] == s[i]);
            }
        }
        lemma_split_one(s.drop_last(), sep);
        assert(s.drop_last().push(s.last()) == s);
    } else {
        assert(s == Seq::<char>::empty());
    }
}

/// A text after a separator adds one piece to the pieces before it.
pub proof fn lemma_split_next(a: Seq<char>, b: Seq<char>, sep: char)
    requires
        !b.contains(sep),
    ensures
        split_on(a.push(sep) + b, sep) == split_on(a, sep).push(b),
    decreases b.len(),
{
    let s = a.push(sep) + b;
    if b.len() > 0 {
        assert(b.last() != sep) by {
            assert(b[b.len() - 1] == b.last());
        }
        assert(!b.drop_last().contains(sep)) by {
            assert forall|i: int| 0 <= i < b.drop_last().len() implies b.drop_last()[i] != sep by {
                assert(b.drop_last()[i] == b[i]);
            }
        }
        lemma_split_next(a, b.drop_last(), sep);
        assert(s.drop_last() == a.push(sep) + b.drop_last());
        assert(b.drop_last().push(b.last()) == b);
        let before = split_on(s.drop_last(), sep);
        assert(before.drop_last() == split_on(a, sep));
    } else {
        assert(s == a.push(sep));
        assert(s.drop_last() == a);
        assert(b == Seq::<char>::empty());
    }
}

/// The characters of each of `pieces`.
pub open spec fn texts(pieces: Seq<String>) -> Seq<Seq<char>> {
    pieces.map_values(|p: String| p@)
}

/// Splits `s` at every `sep`.
pub fn split(s: &str, sep: char) -> (r: Vec<String>)
    ensures
        texts(r@) == split_on(s@, sep),
        r@.len() > 0,
{
    let mut done: Vec<String> = Vec::new();
    let mut piece: String = String::new();
    assert(s@.take(0) == Seq::<char>::empty());
    assert(texts(done@).push(piece@) == split_on(s@.take(0), sep));
    for c in it: s.chars()
        invariant
            it.seq() == s@,
            texts(done@).push(piece@) == split_on(s@.take(it.index() as int), sep),
    {
        proof {
            let i = it.index() as int;
            assert(s@.take(i + 1).drop_last() == s@.take(i));
            assert(s@.take(i + 1).last() == c);
            assert(texts(done@).push(piece@).drop_last() == texts(done@));
        }
        if c == sep {
            let ghost was = done@;
            let ghost last = piece@;
            done.push(piece);
            piece = String::new();
            proof {
                assert(texts(done@) == texts(was).push(last));
            }
        } else {
            piece.push(c);
        }
    }
    proof {
        assert(s@.take(s@.len() as int) == s@);
    }
    let ghost was = done@;
    let ghost last = piece@;
    done.push(piece);
    proof {
        assert(texts(done@) == texts(was).push(last));
    }
    done
}

/// The two texts in a row.
pub fn cat2(a: &str, b: &str) -> (r: String)
    ensures
        r@ == a@ + b@,
{
    let mut r: String = a.to_owned();
    r.append(b);
    r
}

/// The three texts in a row.
pub fn cat3(a: &str, b: &str, c: &str) -> (r: String)
    ensures
        r@ == a@ + b@ + c@,
{
    let mut r: String = cat2(a, b);
    r.append(c);
    r
}

/// The five texts in a row.
pub fn cat5(a: &str, b: &str, c: &str, d: &str, e: &str) -> (r: String)
    ensures
        r@ == a@ + b@ + c@ + d@ + e@,
{
    let mut r: String = cat3(a, b, c);
    r.append(d);
    r.append(e);
    r
}

/// Whether two texts hold the same characters.
pub fn same(a: &str, b: &str) -> (r: bool)
    ensures
        r == (a@ == b@),
{
    a.to_owned() == b.to_owned()
}

/// The characters of `s`.
pub fn chars_of(s: &str) -> (r: Vec<char>)
    ensures
        r@ == s@,
{
    let mut r: Vec<char> = Vec::new();
    for c in it: s.chars()
        invariant
            it.seq() == s@,
            r@ == s@.take(it.index() as int),
    {
        r.push(c);
        assert(s@.take(it.index() as int + 1) == s@.take(it.index() as int).push(c));
    }
    assert(s@.take(s@.len() as int) == s@);
    r
}

/// Whether `s` begins with `prefix`.
pub fn starts_with(s: &str, prefix: &str) -> (r: bool)
    ensures
        r == prefix@.is_prefix_of(s@),
{
    let a: Vec<char> = chars_of(s);
    let b: Vec<char> = chars_of(prefix);
    if b.len() > a.len() {
        return false;
    }
    let mut i: usize = 0;
    while i < b.len()
        invariant
            a@ == s@,
            b@ == prefix@,
            b.len() <= a.len(),
            i <= b.len(),
            forall|j: int| 0 <= j < i ==> a@[j] == b@[j],
        decreases b.len() - i,
    {
        if a[i] != b[i] {
            assert(a@.subrange(0, b@.len() as int)[i as int] != b@[i as int]);
            return false;
        }
        i = i + 1;
    }
    assert(a@.subrange(0, b@.len() as int) == b@);
    true
}

/// The lower case of an ASCII capital; any other character as it is.
pub open spec fn lower(c: char) -> char {
    if 'A' <= c <= 'Z' {
        (c as u32 + 32) as char
    } else {
        c
    }
}

/// `s` with its ASCII capitals in lower case.
pub open spec fn lowercase(s: Seq<char>) -> Seq<char> {
    s.map_values(|c: char| lower(c))
}

/// `s` with its ASCII capitals in lower case.
pub fn ascii_lowercase(s: &str) -> (r: String)
    ensures
        r@ == lowercase(s@),
{
    let mut r: String = String::new();
    for c in it: s.chars()
        invariant
            it.seq() == s@,
            r@ == lowercase(s@.take(it.index() as int)),
    {
        let l: char = if 'A' <= c && c <= 'Z' {
            (c as u8 + 32) as char
        } else {
            c
        };
        r.push(l);
        proof {
            let i = it.index() as int;
            assert(lowercase(s@.take(i + 1)) == lowercase(s@.take(i)).push(lower(c)));
        }
    }
    assert(s@.take(s@.len() as int) == s@);
    r
}

/// Whether `c` has the Unicode property White_Space.
pub open spec fn white_space(c: char) -> bool {
    let u = c as u32;
    ||| 0x9 <= u <= 0xd
    ||| u == 0x20
    ||| u == 0x85
    ||| u == 0xa0
    ||| u == 0x1680
    ||| 0x2000 <= u <= 0x200a
    ||| u == 0x2028
    ||| u == 0x2029
    ||| u == 0x202f
    ||| u == 0x205f
    ||| u == 0x3000
}

fn is_white_space(c: char) -> (r: bool)
    ensures
        r == white_space(c),
{
    let u: u32 = c as u32;
    (0x9 <= u && u <= 0xd) || u == 0x20 || u == 0x85 || u == 0xa0 || u == 0x1680 || (0x2000 <= u
        && u <= 0x200a) || u == 0x2028 || u == 0x2029 || u == 0x202f || u == 0x205f || u == 0x3000
}

/// `s` without the white space at its start.
pub open spec fn trim_start(s: Seq<char>) -> Seq<char>
    decreases s.len(),
{
    if s.len() > 0 && white_space(s[0]) {
        trim_start(s.drop_first())
    } else {
        s
    }
}

/// `s` without the white space at its end.
pub open spec fn trim_end(s: Seq<char>) -> Seq<char>
    decreases s.len(),
{
    if s.len() > 0 && white_space(s.last()) {
        trim_end(s.drop_last())
    } else {
        s
    }
}

/// `s` without the white space at its two ends.
pub open spec fn trimmed(s: Seq<char>) -> Seq<char> {
    trim_end(trim_start(s))
}

/// `s` without the white space at its two ends.
pub fn trim<'a>(s: &'a str) -> (r: &'a str)
    ensures
        r@ == trimmed(s@),
{
    let c: Vec<char> = chars_of(s);
    let n: usize = c.len();
    let mut i: usize = 0;
    assert(s@.skip(0) == s@);
    while i < n && is_white_space(c[i])
        invariant
            n == c@.len(),
            c@ == s@,
            i <= n,
            trim_start(s@.skip(i as int)) == trim_start(s@),
        decreases n - i,
    {
        assert(s@.skip(i as int).drop_first() == s@.skip(i + 1));
        i = i + 1;
    }
    let ghost t = trim_start(s@);
    assert(t == s@.skip(i as int));
    let mut j: usize = n;
    assert(s@.subrange(i as int, n as int) == t);
    while i < j && is_white_space(c[j - 1])
        invariant
            n == c@.len(),
            c@ == s@,
            i <= j <= n,
            trim_end(s@.subrange(i as int, j as int)) == trim_end(t),
        decreases j,
    {
        assert(s@.subrange(i as int, j as int).drop_last() == s@.subrange(i as int, j - 1));
        j = j - 1;
    }
    s.substring_char(i, j)
}

/// Whether `c` is an ASCII digit.
pub open spec fn digit(c: char) -> bool {
    '0' <= c <= '9'
}

/// Whether `s` holds ASCII digits only.
pub open spec fn all_digits(s: Seq<char>) -> bool {
    forall|i: int| 0 <= i < s.len() ==> digit(#[trigger] s[i])
}

/// The number that a run of ASCII digits writes.
pub open spec fn digits_value(s: Seq<char>) -> nat
    decreases s.len(),
{
    if s.len() == 0 {
        0
    } else {
        digits_value(s.drop_last()) * 10 + (s.last() as u32 - '0' as u32) as nat
    }
}

/// `n` in decimal digits, without leading zeros.
pub open spec fn decimal_text(n: nat) -> Seq<char>
    decreases n,
{
    let last = ((n % 10) + '0' as u32) as char;
    if n < 10 {
        seq![last]
    } else {
        decimal_text(n / 10).push(last)
    }
}

/// The number that `s` writes: an optional `+`, then digits and nothing else, at most `max`.
pub open spec fn unsigned(s: Seq<char>, max: nat) -> Option<nat> {
    let t = if s.len() > 0 && s[0] == '+' {
        s.skip(1)
    } else {
        s
    };
    if t.len() > 0 && all_digits(t) && digits_value(t) <= max {
        Some(digits_value(t))
    } else {
        None
    }
}

/// A number written in decimal reads back as itself.
pub proof fn lemma_decimal_reads_back(n: nat, max: nat)
    requires
        n <= max,
    ensures
        unsigned(decimal_text(n), max) == Some(n),
        all_digits(decimal_text(n)),
        decimal_text(n).len() > 0,
    decreases n,
{
    let t = decimal_text(n);
    if n >= 10 {
        lemma_decimal_reads_back(n / 10, max);
        let b = decimal_text(n / 10);
        assert(t.drop_last() == b);
        assert forall|i: int| 0 <= i < t.len() implies digit(#[trigger] t[i]) by {
            if i < t.len() - 1 {
                assert(t[i] == b[i]);
            }
        }
        assert(digit(t[0]));
        assert(digit(b[0]));
        assert(unsigned(b, max) == Some(digits_value(b)));
    } else {
        assert(t.drop_last() == Seq::<char>::empty());
        assert(digits_value(t.drop_last()) == 0);
        assert(digit(t[0]));
    }
    assert(digits_value(t) == n);
}

/// `n` in decimal.
pub fn decimal(n: u64) -> (r: String)
    ensures
        r@ == decimal_text(n as nat),
    decreases n,
{
    let mut r: String = if n < 10 {
        String::new()
    } else {
        decimal(n / 10)
    };
    let last: u8 = (n % 10) as u8 + 48;
    r.push(last as char);
    r
}

proof fn lemma_value_grows(s: Seq<char>, i: int)
    requires
        0 <= i <= s.len(),
    ensures
        digits_value(s.take(i)) <= digits_value(s),
    decreases s.len() - i,
{
    if i < s.len() {
        lemma_value_grows(s, i + 1);
        assert(s.take(i + 1).drop_last() == s.take(i));
    } else {
        assert(s.take(i) == s);
    }
}

/// Reads an unsigned decimal number of at most `max`.
pub fn parse_unsigned(s: &str, max: u32) -> (r: Option<u32>)
    ensures
        match r {
            Some(n) => unsigned(s@, max as nat) == Some(n as nat),
            None => unsigned(s@, max as nat) is None,
        },
{
    let c: Vec<char> = chars_of(s);
    let start: usize = if c.len() > 0 && c[0] == '+' {
        1
    } else {
        0
    };
    let ghost t = s@.skip(start as int);
    assert(start == 0 ==> t == s@);
    if start == c.len() {
        return None;
    }
    let mut i: usize = start;
    let mut v: u64 = 0;
    assert(t.take(0) == Seq::<char>::empty());
    while i < c.len()
        invariant
            c@ == s@,
            start <= i <= c.len(),
            t == s@.skip(start as int),
            t == if s@.len() > 0 && s@[0] == '+' {
                s@.skip(1)
            } else {
                s@
            },
            v <= max,
            v == digits_value(t.take(i - start)),
            forall|j: int| 0 <= j < i - start ==> digit(#[trigger] t[j]),
        decreases c.len() - i,
    {
        let d: char = c[i];
        assert(d == t[i - start]);
        if !('0' <= d && d <= '9') {
            assert(!digit(t[i - start]));
            return None;
        }
        v = v * 10 + (d as u64 - 48);
        i = i + 1;
        assert(t.take(i - start).drop_last() == t.take(i - start - 1));
        if v > max as u64 {
            proof {
                lemma_value_grows(t, i - start);
            }
            return None;
        }
    }
    assert(t.take(t.len() as int) == t);
    Some(v as u32)
}

} // verus!
