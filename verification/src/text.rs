//! Text primitives. Text is modelled as a sequence of `char`s; offsets in
//! contracts are counted in characters.

use vstd::prelude::*;
use vstd::string::StringSliceAdditionalSpecFns;

verus! {

/// The texts held by a sequence of strings.
pub open spec fn strs(v: Seq<String>) -> Seq<Seq<char>> {
    Seq::new(v.len(), |i: int| v[i]@)
}

/// `pat` stands in `s` at offset `i`.
pub open spec fn stands_at(s: Seq<char>, pat: Seq<char>, i: int) -> bool {
    0 <= i && i + pat.len() <= s.len() && s.subrange(i, i + pat.len()) == pat
}

/// The first offset from `i` on at which `pat` stands in `s`.
pub open spec fn find_from(s: Seq<char>, pat: Seq<char>, i: int) -> Option<int>
    decreases s.len() - i + 1,
{
    if i < 0 || i + pat.len() > s.len() {
        None
    } else if stands_at(s, pat, i) {
        Some(i)
    } else {
        find_from(s, pat, i + 1)
    }
}

/// `pat` occurs somewhere in `s`.
pub open spec fn occurs(s: Seq<char>, pat: Seq<char>) -> bool {
    find_from(s, pat, 0) is Some
}

/// `std::string::String::push` appends one character.
pub assume_specification[ String::push ](s: &mut String, c: char)
    ensures
        final(s)@ == old(s)@.push(c),
;

/// The characters of `s`.
pub fn chars_of(s: &str) -> (r: Vec<char>)
    ensures
        r@ == s@,
{
    let mut out: Vec<char> = Vec::new();
    for c in it: s.chars()
        invariant
            out@ == s@.take(it.index() as int),
            it.seq() == s@,
    {
        out.push(c);
    }
    assert(s@.take(s@.len() as int) == s@);
    out
}

/// Whether two texts are the same.
pub fn same(a: &str, b: &str) -> (r: bool)
    ensures
        r == (a@ == b@),
{
    let x = chars_of(a);
    let y = chars_of(b);
    if x.len() != y.len() {
        return false;
    }
    let mut i: usize = 0;
    while i < x.len()
        invariant
            i <= x@.len(),
            x@ == a@,
            y@ == b@,
            x@.len() == y@.len(),
            forall|k: int| 0 <= k < i ==> x@[k] == y@[k],
        decreases x@.len() - i,
    {
        if x[i] != y[i] {
            return false;
        }
        i += 1;
    }
    assert(a@ =~= b@);
    true
}

/// The text formed by the characters at offsets `from` to `to`.
pub fn text_of(v: &Vec<char>, from: usize, to: usize) -> (r: String)
    requires
        from <= to <= v@.len(),
    ensures
        r@ == v@.subrange(from as int, to as int),
{
    let mut out = String::new();
    let mut i: usize = from;
    while i < to
        invariant
            from <= i <= to <= v@.len(),
            out@ == v@.subrange(from as int, i as int),
        decreases to - i,
    {
        out.push(v[i]);
        i += 1;
    }
    out
}

/// Whether `pat` stands in `v` at offset `i`.
fn stands(v: &Vec<char>, pat: &Vec<char>, i: usize) -> (r: bool)
    requires
        i + pat@.len() <= v@.len(),
    ensures
        r == stands_at(v@, pat@, i as int),
{
    let mut k: usize = 0;
    while k < pat.len()
        invariant
            k <= pat@.len(),
            i + pat@.len() <= v.len(),
            forall|j: int| 0 <= j < k ==> v@[i + j] == pat@[j],
        decreases pat@.len() - k,
    {
        if v[i + k] != pat[k] {
            assert(v@.subrange(i as int, i + pat@.len())[k as int] != pat@[k as int]);
            return false;
        }
        k += 1;
    }
    assert(v@.subrange(i as int, i + pat@.len()) =~= pat@);
    true
}

/// The first offset from `start` on at which `pat` stands in `v`.
pub fn find_chars(v: &Vec<char>, pat: &Vec<char>, start: usize) -> (r: Option<usize>)
    ensures
        match r {
            Some(i) => find_from(v@, pat@, start as int) == Some(i as int),
            None => find_from(v@, pat@, start as int) is None,
        },
{
    let mut i: usize = start;
    if pat.len() > v.len() {
        return None;
    }
    let last: usize = v.len() - pat.len();
    while i <= last
        invariant
            last == v@.len() - pat@.len(),
            last < usize::MAX || i <= last,
            start <= i,
            find_from(v@, pat@, start as int) == find_from(v@, pat@, i as int),
        decreases last + 1 - i,
    {
        if stands(v, pat, i) {
            return Some(i);
        }
        if i == last {
            return None;
        }
        i += 1;
    }
    None
}

/// The offset of the first occurrence of `pat` in `s`.
pub fn find(s: &str, pat: &str) -> (r: Option<usize>)
    ensures
        match r {
            Some(i) => find_from(s@, pat@, 0) == Some(i as int),
            None => find_from(s@, pat@, 0) is None,
        },
{
    find_chars(&chars_of(s), &chars_of(pat), 0)
}

/// Whether `pat` occurs in `s`.
pub fn contains(s: &str, pat: &str) -> (r: bool)
    ensures
        r == occurs(s@, pat@),
{
    find(s, pat).is_some()
}

/// Whether `s` begins with `pat`.
pub fn starts_with(s: &str, pat: &str) -> (r: bool)
    ensures
        r == stands_at(s@, pat@, 0),
{
    let v = chars_of(s);
    let p = chars_of(pat);
    p.len() <= v.len() && stands(&v, &p, 0)
}

/// Whether `s` ends with `pat`.
pub fn ends_with(s: &str, pat: &str) -> (r: bool)
    ensures
        r == stands_at(s@, pat@, s@.len() - pat@.len()),
{
    let v = chars_of(s);
    let p = chars_of(pat);
    p.len() <= v.len() && stands(&v, &p, v.len() - p.len())
}

/// What follows `pat` in `s`, where `s` begins with `pat`.
pub open spec fn after_prefix(s: Seq<char>, pat: Seq<char>) -> Option<Seq<char>> {
    if stands_at(s, pat, 0) {
        Some(s.subrange(pat.len() as int, s.len() as int))
    } else {
        None
    }
}

/// What follows `pat` in `s`, where `s` begins with `pat`.
pub fn strip_prefix(s: &str, pat: &str) -> (r: Option<String>)
    ensures
        r is Some <==> after_prefix(s@, pat@) is Some,
        r is Some ==> after_prefix(s@, pat@) == Some(r->0@),
{
    let v = chars_of(s);
    let p = chars_of(pat);
    if p.len() <= v.len() && stands(&v, &p, 0) {
        Some(text_of(&v, p.len(), v.len()))
    } else {
        None
    }
}

/// The pieces of `s` from offset `start` on, cut at every occurrence of `sep`.
pub open spec fn split_from(s: Seq<char>, sep: Seq<char>, start: int) -> Seq<Seq<char>>
    decreases s.len() - start,
{
    match find_from(s, sep, start) {
        Some(i) => if start <= i && i + sep.len() <= s.len() && sep.len() > 0 {
            seq![s.subrange(start, i)] + split_from(s, sep, i + sep.len())
        } else {
            seq![s.subrange(start, s.len() as int)]
        },
        None => seq![s.subrange(start, s.len() as int)],
    }
}

/// A found offset lies between the start of the search and the end of the text.
pub proof fn lemma_find_bounds(s: Seq<char>, pat: Seq<char>, start: int)
    ensures
        find_from(s, pat, start) matches Some(i) ==> start <= i && stands_at(s, pat, i)
            && i + pat.len() <= s.len(),
    decreases s.len() - start + 1,
{
    if start < 0 || start + pat.len() > s.len() {
    } else if stands_at(s, pat, start) {
    } else {
        lemma_find_bounds(s, pat, start + 1);
    }
}

/// A search finds the first place: `pat` stands at no earlier offset.
pub proof fn lemma_find_is_first(s: Seq<char>, pat: Seq<char>, start: int, j: int)
    requires
        0 <= start <= j,
        stands_at(s, pat, j),
    ensures
        find_from(s, pat, start) is Some,
        find_from(s, pat, start)->0 <= j,
    decreases j - start,
{
    if !stands_at(s, pat, start) {
        lemma_find_is_first(s, pat, start + 1, j);
    }
}

/// What stands between two texts occurs in the whole.
pub proof fn lemma_occurs_between(a: Seq<char>, pat: Seq<char>, b: Seq<char>)
    ensures
        occurs(a + pat + b, pat),
{
    let s = a + pat + b;
    assert(s.subrange(a.len() as int, (a.len() + pat.len()) as int) =~= pat);
    lemma_find_is_first(s, pat, 0, a.len() as int);
}

/// What occurs in a part occurs in the whole.
pub proof fn lemma_occurs_through(s: Seq<char>, part: Seq<char>, pat: Seq<char>)
    requires
        occurs(s, part),
        occurs(part, pat),
    ensures
        occurs(s, pat),
{
    lemma_find_bounds(s, part, 0);
    lemma_find_bounds(part, pat, 0);
    let i = find_from(s, part, 0)->0;
    let j = find_from(part, pat, 0)->0;
    assert(s.subrange(i + j, i + j + pat.len()) =~= s.subrange(i, i + part.len()).subrange(
        j,
        j + pat.len(),
    ));
    lemma_find_is_first(s, pat, 0, i + j);
}

/// Each of some texts occurs in them joined.
pub proof fn lemma_joined_holds(parts: Seq<Seq<char>>, sep: Seq<char>, n: int, k: int)
    requires
        0 <= k < n <= parts.len(),
    ensures
        occurs(joined(parts, sep, n), parts[k]),
    decreases n,
{
    let whole = joined(parts, sep, n);
    let none = Seq::<char>::empty();
    if n == 1 {
        assert(whole =~= none + parts[0] + none);
        lemma_occurs_between(none, parts[0], none);
    } else {
        let before = joined(parts, sep, n - 1);
        if k == n - 1 {
            assert(whole =~= (before + sep) + parts[k] + none);
            lemma_occurs_between(before + sep, parts[k], none);
        } else {
            lemma_joined_holds(parts, sep, n - 1, k);
            assert(whole =~= none + before + (sep + parts[n - 1]));
            lemma_occurs_between(none, before, sep + parts[n - 1]);
            lemma_occurs_through(whole, before, parts[k]);
        }
    }
}

/// The pieces of `s` between the occurrences of `sep`.
pub fn split(s: &str, sep: &str) -> (r: Vec<String>)
    requires
        sep@.len() > 0,
    ensures
        strs(r@) == split_from(s@, sep@, 0),
        r@.len() > 0,
{
    let v = chars_of(s);
    let p = chars_of(sep);
    let mut out: Vec<String> = Vec::new();
    let mut pos: usize = 0;
    loop
        invariant
            v@ == s@,
            p@ == sep@,
            sep@.len() > 0,
            pos <= v@.len(),
            strs(out@) + split_from(s@, sep@, pos as int) == split_from(s@, sep@, 0),
        decreases v@.len() - pos,
    {
        match find_chars(&v, &p, pos) {
            Some(i) => {
                proof {
                    lemma_find_bounds(s@, sep@, pos as int);
                }
                let ghost before = strs(out@);
                let piece = text_of(&v, pos, i);
                out.push(piece);
                assert(v.len() == v@.len() && p.len() == p@.len());
                let next: usize = i + p.len();
                assert(strs(out@) =~= before.push(piece@));
                assert(strs(out@) + split_from(s@, sep@, next as int) =~= before + (seq![piece@]
                    + split_from(s@, sep@, next as int)));
                pos = next;
            },
            None => {
                let ghost before = strs(out@);
                let piece = text_of(&v, pos, v.len());
                out.push(piece);
                assert(strs(out@) =~= before + seq![piece@]);
                return out;
            },
        }
    }
}

/// `s` without one trailing carriage return.
pub open spec fn without_cr(s: Seq<char>) -> Seq<char> {
    if s.len() > 0 && s.last() == '\r' {
        s.drop_last()
    } else {
        s
    }
}

/// The lines of `s`: a line ends at `\n` or `\r\n`; a last line need not end.
pub open spec fn lines_of(s: Seq<char>) -> Seq<Seq<char>> {
    let p = split_from(s, seq!['\n'], 0);
    Seq::new(
        (if p.last().len() == 0 {
            p.len() - 1
        } else {
            p.len() as int
        }) as nat,
        |i: int|
            if i + 1 < p.len() {
                without_cr(p[i])
            } else {
                p[i]
            },
    )
}

/// The lines of `s`.
pub fn lines(s: &str) -> (r: Vec<String>)
    ensures
        strs(r@) == lines_of(s@),
{
    let sep = "\n";
    proof {
        reveal_strlit("\n");
        assert(sep@ =~= seq!['\n']);
    }
    let pieces = split(s, sep);
    let ghost p = split_from(s@, seq!['\n'], 0);
    assert(strs(pieces@) == p);
    assert(p.last() == pieces@[pieces@.len() - 1]@);
    let last: usize = pieces.len() - 1;
    let n: usize = if pieces[last].as_str().is_empty() {
        last
    } else {
        pieces.len()
    };
    let mut out: Vec<String> = Vec::new();
    let mut i: usize = 0;
    while i < n
        invariant
            n <= pieces@.len(),
            last == pieces@.len() - 1,
            i <= n,
            out@.len() == i,
            p == strs(pieces@),
            forall|k: int|
                0 <= k < i ==> (#[trigger] out@[k])@ == (if k + 1 < p.len() {
                    without_cr(p[k])
                } else {
                    p[k]
                }),
        decreases n - i,
    {
        let v = chars_of(pieces[i].as_str());
        assert(v@ == p[i as int]);
        let line = if i < last && v.len() > 0 && v[v.len() - 1] == '\r' {
            let t = text_of(&v, 0, v.len() - 1);
            assert(t@ =~= v@.drop_last());
            t
        } else {
            let t = text_of(&v, 0, v.len());
            assert(t@ =~= v@);
            t
        };
        out.push(line);
        i += 1;
    }
    assert(strs(out@) =~= lines_of(s@));
    out
}

/// The characters with the Unicode property White_Space.
pub open spec fn is_space(c: char) -> bool {
    let n = c as int;
    ||| 9 <= n <= 13
    ||| n == 32
    ||| n == 0x85
    ||| n == 0xa0
    ||| n == 0x1680
    ||| 0x2000 <= n <= 0x200a
    ||| n == 0x2028
    ||| n == 0x2029
    ||| n == 0x202f
    ||| n == 0x205f
    ||| n == 0x3000
}

/// Whether `c` has the Unicode property White_Space.
pub fn is_white_space(c: char) -> (r: bool)
    ensures
        r == is_space(c),
{
    let n: u32 = c as u32;
    (9 <= n && n <= 13) || n == 32 || n == 0x85 || n == 0xa0 || n == 0x1680 || (0x2000 <= n && n
        <= 0x200a) || n == 0x2028 || n == 0x2029 || n == 0x202f || n == 0x205f || n == 0x3000
}

/// `s` without the white space at its beginning.
pub open spec fn trimmed_start(s: Seq<char>) -> Seq<char>
    decreases s.len(),
{
    if s.len() > 0 && is_space(s[0]) {
        trimmed_start(s.subrange(1, s.len() as int))
    } else {
        s
    }
}

/// `s` without the white space at its end.
pub open spec fn trimmed_end(s: Seq<char>) -> Seq<char>
    decreases s.len(),
{
    if s.len() > 0 && is_space(s.last()) {
        trimmed_end(s.drop_last())
    } else {
        s
    }
}

/// `s` without the white space at its two ends.
pub open spec fn trimmed(s: Seq<char>) -> Seq<char> {
    trimmed_end(trimmed_start(s))
}

/// `s` without the white space at its two ends.
pub fn trim(s: &str) -> (r: String)
    ensures
        r@ == trimmed(s@),
{
    let v = chars_of(s);
    assert(v@.subrange(0, v@.len() as int) =~= v@);
    let mut from: usize = 0;
    while from < v.len() && is_white_space(v[from])
        invariant
            from <= v@.len(),
            trimmed_start(v@) == trimmed_start(v@.subrange(from as int, v@.len() as int)),
        decreases v@.len() - from,
    {
        assert(v@.subrange(from as int, v@.len() as int).subrange(1, v@.len() - from)
            =~= v@.subrange(from + 1, v@.len() as int));
        from += 1;
    }
    let mut to: usize = v.len();
    while to > from && is_white_space(v[to - 1])
        invariant
            from <= to <= v@.len(),
            trimmed(v@) == trimmed_end(v@.subrange(from as int, to as int)),
        decreases to,
    {
        assert(v@.subrange(from as int, to as int).drop_last() =~= v@.subrange(
            from as int,
            to - 1,
        ));
        to -= 1;
    }
    text_of(&v, from, to)
}

/// `s` without the white space at its end.
pub fn trim_end(s: &str) -> (r: String)
    ensures
        r@ == trimmed_end(s@),
{
    let v = chars_of(s);
    let mut to: usize = v.len();
    assert(v@.subrange(0, v@.len() as int) =~= v@);
    while to > 0 && is_white_space(v[to - 1])
        invariant
            to <= v@.len(),
            trimmed_end(v@) == trimmed_end(v@.subrange(0, to as int)),
        decreases to,
    {
        assert(v@.subrange(0, to as int).drop_last() =~= v@.subrange(0, to - 1));
        to -= 1;
    }
    text_of(&v, 0, to)
}

/// `s` without the copies of `c` at its end.
pub open spec fn without_tail(s: Seq<char>, c: char) -> Seq<char>
    decreases s.len(),
{
    if s.len() > 0 && s.last() == c {
        without_tail(s.drop_last(), c)
    } else {
        s
    }
}

/// `s` without the copies of `c` at its end.
pub fn trim_end_char(s: &str, c: char) -> (r: String)
    ensures
        r@ == without_tail(s@, c),
{
    let v = chars_of(s);
    let mut to: usize = v.len();
    assert(v@.subrange(0, v@.len() as int) =~= v@);
    while to > 0 && v[to - 1] == c
        invariant
            to <= v@.len(),
            without_tail(v@, c) == without_tail(v@.subrange(0, to as int), c),
        decreases to,
    {
        assert(v@.subrange(0, to as int).drop_last() =~= v@.subrange(0, to - 1));
        to -= 1;
    }
    text_of(&v, 0, to)
}

/// The first `n` texts of `parts`, with `sep` between neighbours.
pub open spec fn joined(parts: Seq<Seq<char>>, sep: Seq<char>, n: int) -> Seq<char>
    decreases n,
{
    if n <= 0 {
        Seq::empty()
    } else if n == 1 {
        parts[0]
    } else {
        joined(parts, sep, n - 1) + sep + parts[n - 1]
    }
}

/// The texts of `parts`, with `sep` between neighbours.
pub fn join(parts: &Vec<String>, sep: &str) -> (r: String)
    ensures
        r@ == joined(strs(parts@), sep@, parts@.len() as int),
{
    let mut out = String::new();
    let mut i: usize = 0;
    while i < parts.len()
        invariant
            i <= parts@.len(),
            out@ == joined(strs(parts@), sep@, i as int),
        decreases parts@.len() - i,
    {
        if i > 0 {
            out.append(sep);
        }
        let ghost before = out@;
        out.append(parts[i].as_str());
        assert(i == 0 ==> out@ =~= parts@[0]@);
        i += 1;
    }
    out
}

/// The first `n` characters of `s`, or all where there are fewer.
pub open spec fn prefix(s: Seq<char>, n: int) -> Seq<char> {
    if n < s.len() {
        s.take(n)
    } else {
        s
    }
}

/// The first `n` characters of `s`, or all where there are fewer.
pub fn take_chars(s: &str, n: usize) -> (r: String)
    ensures
        r@ == prefix(s@, n as int),
{
    let v = chars_of(s);
    if n < v.len() {
        text_of(&v, 0, n)
    } else {
        s.to_owned()
    }
}

/// The number of characters of `s`.
pub fn char_count(s: &str) -> (r: usize)
    ensures
        r == s@.len(),
{
    s.unicode_len()
}

/// Two texts one after the other.
pub fn cat2(a: &str, b: &str) -> (r: String)
    ensures
        r@ == a@ + b@,
{
    let mut s = a.to_owned();
    s.append(b);
    s
}

/// Three texts one after the other.
pub fn cat3(a: &str, b: &str, c: &str) -> (r: String)
    ensures
        r@ == a@ + b@ + c@,
{
    let mut s = cat2(a, b);
    s.append(c);
    s
}

/// Four texts one after the other.
pub fn cat4(a: &str, b: &str, c: &str, d: &str) -> (r: String)
    ensures
        r@ == a@ + b@ + c@ + d@,
{
    let mut s = cat3(a, b, c);
    s.append(d);
    s
}

/// Five texts one after the other.
pub fn cat5(a: &str, b: &str, c: &str, d: &str, e: &str) -> (r: String)
    ensures
        r@ == a@ + b@ + c@ + d@ + e@,
{
    let mut s = cat4(a, b, c, d);
    s.append(e);
    s
}

/// Six texts one after the other.
pub fn cat6(a: &str, b: &str, c: &str, d: &str, e: &str, f: &str) -> (r: String)
    ensures
        r@ == a@ + b@ + c@ + d@ + e@ + f@,
{
    let mut s = cat5(a, b, c, d, e);
    s.append(f);
    s
}

/// Seven texts one after the other.
pub fn cat7(a: &str, b: &str, c: &str, d: &str, e: &str, f: &str, g: &str) -> (r: String)
    ensures
        r@ == a@ + b@ + c@ + d@ + e@ + f@ + g@,
{
    let mut s = cat6(a, b, c, d, e, f);
    s.append(g);
    s
}

/// Adds a line.
pub fn add_line(lines: &mut Vec<String>, line: &str)
    ensures
        strs(final(lines)@) == strs(old(lines)@).push(line@),
        final(lines)@.len() == old(lines)@.len() + 1,
{
    let ghost before = strs(lines@);
    lines.push(line.to_owned());
    assert(strs(lines@) =~= before.push(line@));
}

/// The code point of `c`.
pub fn code_of(c: char) -> (r: u32)
    ensures
        r == c as int,
{
    c as u32
}

/// The decimal digit of value `d`.
pub open spec fn digit(d: nat) -> char {
    (48 + d) as char
}

/// `n` in decimal.
pub open spec fn decimal(n: nat) -> Seq<char>
    decreases n,
{
    if n < 10 {
        seq![digit(n)]
    } else {
        decimal(n / 10).push(digit(n % 10))
    }
}

/// `n` in decimal.
pub fn decimal_of(n: u64) -> (r: String)
    ensures
        r@ == decimal(n as nat),
    decreases n,
{
    if n < 10 {
        let mut s = String::new();
        let d: u8 = n as u8;
        s.push((48 + d) as char);
        assert(s@ =~= decimal(n as nat));
        s
    } else {
        let mut s = decimal_of(n / 10);
        let d: u8 = (n % 10) as u8;
        s.push((48 + d) as char);
        s
    }
}

/// A signed number in decimal.
pub open spec fn signed_decimal(n: int) -> Seq<char> {
    if n < 0 {
        "-"@ + decimal((-n) as nat)
    } else {
        decimal(n as nat)
    }
}

/// A signed number in decimal.
pub fn signed_decimal_of(n: i64) -> (r: String)
    ensures
        r@ == signed_decimal(n as int),
{
    if n < 0 {
        let mut s = "-".to_owned();
        let m: u64 = (-(n as i128)) as u64;
        s.append(decimal_of(m).as_str());
        s
    } else {
        decimal_of(n as u64)
    }
}

/// The value of the first `n` characters of `s` read as decimal digits.
pub open spec fn digits_value(s: Seq<char>, n: int) -> Option<nat>
    decreases n,
{
    if n <= 0 {
        Some(0)
    } else {
        let c = s[n - 1] as int;
        match digits_value(s, n - 1) {
            Some(v) => if 48 <= c <= 57 {
                Some((v * 10 + (c - 48)) as nat)
            } else {
                None
            },
            None => None,
        }
    }
}

/// The value of `s` read as a decimal number without a sign.
pub open spec fn number_value(s: Seq<char>) -> Option<nat> {
    if s.len() == 0 {
        None
    } else {
        digits_value(s, s.len() as int)
    }
}

/// Digits that have no value, or one above `limit`, keep that when more follow.
proof fn lemma_digits_grow(s: Seq<char>, i: int, n: int, limit: nat)
    requires
        0 <= i <= n,
        digits_value(s, i) matches Some(v) ==> v > limit,
    ensures
        digits_value(s, n) matches Some(v) ==> v > limit,
    decreases n - i,
{
    if i < n {
        lemma_digits_grow(s, i, n - 1, limit);
    }
}

/// The value of `s` as an unsigned number of at most `limit`.
pub fn parse_number(s: &str, limit: u64) -> (r: Option<u64>)
    ensures
        match r {
            Some(v) => number_value(s@) == Some(v as nat) && v <= limit,
            None => number_value(s@) matches Some(v) ==> v > limit,
        },
{
    let v = chars_of(s);
    if v.len() == 0 {
        return None;
    }
    let mut acc: u64 = 0;
    let mut i: usize = 0;
    while i < v.len()
        invariant
            v@ == s@,
            i <= v@.len(),
            acc <= limit,
            digits_value(s@, i as int) == Some(acc as nat),
        decreases v@.len() - i,
    {
        let c: u32 = code_of(v[i]);
        if c < 48 || c > 57 {
            proof {
                lemma_digits_grow(s@, i + 1, s@.len() as int, limit as nat);
            }
            return None;
        }
        let next: u128 = (acc as u128) * 10 + ((c - 48) as u128);
        if next > limit as u128 {
            proof {
                lemma_digits_grow(s@, i + 1, s@.len() as int, limit as nat);
            }
            return None;
        }
        acc = next as u64;
        i += 1;
    }
    Some(acc)
}

/// The lower case of a text, by `str::to_lowercase`.
pub uninterp spec fn lowercase(s: Seq<char>) -> Seq<char>;

/// `str::to_lowercase` maps a text to its Unicode lower case, a function of
/// the text alone.
#[verifier::external_body]
pub(crate) fn to_lowercase(s: &str) -> (r: String)
    ensures
        r@ == lowercase(s@),
{
    s.to_lowercase()
}

/// The text read from bytes with each ill-formed sequence replaced, by
/// `String::from_utf8_lossy`.
pub uninterp spec fn lossy(bytes: Seq<u8>) -> Seq<char>;

/// `String::from_utf8_lossy` reads bytes as UTF-8 and replaces what is
/// ill-formed; its result is a function of the bytes. Bytes that are well-formed
/// throughout are read as the text that they encode.
#[verifier::external_body]
pub(crate) fn from_utf8_lossy(bytes: &[u8]) -> (r: String)
    ensures
        r@ == lossy(bytes@),
        vstd::utf8::valid_utf8(bytes@) ==> r@ == vstd::utf8::decode_utf8(bytes@),
{
    String::from_utf8_lossy(bytes).into_owned()
}

/// The text of the first `n` bytes of `s`.
pub open spec fn byte_prefix(s: Seq<char>, n: int) -> Seq<char> {
    vstd::utf8::decode_utf8(vstd::utf8::encode_utf8(s).subrange(0, n))
}

/// The text of the first `n` bytes of `s`.
pub fn take_bytes(s: &str, n: usize) -> (r: String)
    requires
        vstd::utf8::is_char_boundary(s.spec_bytes(), n as int),
    ensures
        r@ == byte_prefix(s@, n as int),
{
    let (head, _) = s.split_at(n);
    proof {
        vstd::utf8::encode_utf8_decode_utf8(head@);
    }
    head.to_owned()
}

/// The UTF-8 bytes of `s`.
pub fn bytes_of(s: &str) -> (r: Vec<u8>)
    ensures
        r@ == s.spec_bytes(),
{
    let b = s.as_bytes();
    let mut out: Vec<u8> = Vec::new();
    let mut i: usize = 0;
    while i < b.len()
        invariant
            i <= b@.len(),
            out@ == b@.take(i as int),
        decreases b@.len() - i,
    {
        out.push(b[i]);
        i += 1;
    }
    assert(b@.take(b@.len() as int) =~= b@);
    out
}

/// The length of `s` in UTF-8 bytes.
pub fn byte_len(s: &str) -> (r: usize)
    ensures
        r == s.spec_bytes().len(),
{
    s.as_bytes().len()
}

/// A text occurs in another exactly where it stands at some offset of it.
pub proof fn law_occurs_where_it_stands(s: Seq<char>, pat: Seq<char>)
    ensures
        occurs(s, pat) <==> exists|i: int| stands_at(s, pat, i),
{
    lemma_find_bounds(s, pat, 0);
    if occurs(s, pat) {
        assert(stands_at(s, pat, find_from(s, pat, 0)->0));
    }
    if exists|i: int| stands_at(s, pat, i) {
        let i = choose|i: int| stands_at(s, pat, i);
        lemma_find_is_first(s, pat, 0, i);
    }
}

proof fn lemma_joined_prefix(a: Seq<Seq<char>>, b: Seq<Seq<char>>, sep: Seq<char>, n: int)
    requires
        0 <= n <= a.len(),
    ensures
        joined(a + b, sep, n) == joined(a, sep, n),
    decreases n,
{
    if n > 0 {
        assert((a + b)[n - 1] == a[n - 1]);
        lemma_joined_prefix(a, b, sep, n - 1);
    }
}

/// Texts joined one after the other: the first ones joined, the separator, the
/// others joined. One text alone is itself, and no texts are the empty one.
pub proof fn law_joining_goes_in_order(
    a: Seq<Seq<char>>,
    b: Seq<Seq<char>>,
    sep: Seq<char>,
    n: int,
)
    requires
        a.len() > 0,
        0 < n <= b.len(),
    ensures
        joined(a + b, sep, a.len() + n) == joined(a, sep, a.len() as int) + sep + joined(b, sep, n),
        joined(a, sep, 0).len() == 0,
        joined(a, sep, 1) == a[0],
    decreases n,
{
    lemma_joined_prefix(a, b, sep, a.len() as int);
    assert((a + b)[a.len() + n - 1] == b[n - 1]);
    let head = joined(a, sep, a.len() as int);
    if n == 1 {
        assert(joined(a + b, sep, a.len() + n) == joined(a + b, sep, a.len() as int) + sep + b[0]);
    } else {
        law_joining_goes_in_order(a, b, sep, n - 1);
        assert(joined(a + b, sep, a.len() + n) =~= head + sep + joined(b, sep, n));
    }
}

proof fn lemma_joined_first(first: Seq<char>, rest: Seq<Seq<char>>, sep: Seq<char>)
    requires
        rest.len() > 0,
    ensures
        joined(seq![first] + rest, sep, 1 + rest.len() as int) == first + sep + joined(
            rest,
            sep,
            rest.len() as int,
        ),
{
    law_joining_goes_in_order(seq![first], rest, sep, rest.len() as int);
    assert(joined(seq![first], sep, 1) == first);
}

/// The pieces of a text joined again give the text back, and none of them holds
/// what they were cut at.
pub proof fn law_split_joins_back(s: Seq<char>, sep: Seq<char>, start: int)
    requires
        sep.len() > 0,
        0 <= start <= s.len(),
    ensures
        ({
            let pieces = split_from(s, sep, start);
            &&& pieces.len() > 0
            &&& joined(pieces, sep, pieces.len() as int) == s.subrange(start, s.len() as int)
            &&& forall|i: int| 0 <= i < pieces.len() ==> !occurs(#[trigger] pieces[i], sep)
        }),
    decreases s.len() - start,
{
    let pieces = split_from(s, sep, start);
    lemma_find_bounds(s, sep, start);
    match find_from(s, sep, start) {
        Some(i) => {
            let first = s.subrange(start, i);
            let rest = split_from(s, sep, i + sep.len());
            law_split_joins_back(s, sep, i + sep.len());
            assert(pieces == seq![first] + rest);
            lemma_joined_first(first, rest, sep);
            assert(s.subrange(i, i + sep.len()) == sep);
            assert(joined(pieces, sep, pieces.len() as int) =~= s.subrange(start, s.len() as int));
            lemma_head_holds_none(s, sep, start, i);
            assert forall|k: int| 0 <= k < pieces.len() implies !occurs(
                #[trigger] pieces[k],
                sep,
            ) by {
                if k > 0 {
                    assert(pieces[k] == rest[k - 1]);
                }
            }
        },
        None => {
            let only = s.subrange(start, s.len() as int);
            assert(pieces == seq![only]);
            assert(joined(pieces, sep, 1) == only);
            lemma_find_bounds(only, sep, 0);
            if occurs(only, sep) {
                let j = find_from(only, sep, 0)->0;
                assert(s.subrange(start + j, start + j + sep.len()) =~= only.subrange(
                    j,
                    j + sep.len(),
                ));
                lemma_find_is_first(s, sep, start, start + j);
            }
        },
    }
}

proof fn lemma_head_holds_none(s: Seq<char>, sep: Seq<char>, start: int, i: int)
    requires
        sep.len() > 0,
        0 <= start,
        find_from(s, sep, start) == Some(i),
        start <= i <= s.len(),
    ensures
        !occurs(s.subrange(start, i), sep),
{
    let head = s.subrange(start, i);
    lemma_find_bounds(head, sep, 0);
    if occurs(head, sep) {
        let j = find_from(head, sep, 0)->0;
        assert(s.subrange(start + j, start + j + sep.len()) =~= head.subrange(j, j + sep.len()));
        lemma_find_is_first(s, sep, start, start + j);
    }
}

/// No line holds a line break.
pub proof fn law_lines_hold_no_break(s: Seq<char>, i: int)
    requires
        0 <= i < lines_of(s).len(),
    ensures
        forall|k: int| 0 <= k < lines_of(s)[i].len() ==> #[trigger] lines_of(s)[i][k] != '\n',
{
    let sep = seq!['\n'];
    law_split_joins_back(s, sep, 0);
    let p = split_from(s, sep, 0);
    let piece = p[i];
    assert forall|k: int| 0 <= k < lines_of(s)[i].len() implies #[trigger] lines_of(s)[i][k]
        != '\n' by {
        if piece[k] == '\n' {
            assert(piece.subrange(k, k + 1) =~= sep);
            lemma_find_is_first(piece, sep, 0, k);
        }
    }
}

proof fn lemma_trimmed_start(s: Seq<char>) -> (k: int)
    ensures
        0 <= k <= s.len(),
        trimmed_start(s) == s.subrange(k, s.len() as int),
        forall|i: int| 0 <= i < k ==> is_space(#[trigger] s[i]),
        k < s.len() ==> !is_space(s[k]),
    decreases s.len(),
{
    if s.len() > 0 && is_space(s[0]) {
        let rest = s.subrange(1, s.len() as int);
        let k = lemma_trimmed_start(rest);
        assert(rest.subrange(k, rest.len() as int) =~= s.subrange(k + 1, s.len() as int));
        assert forall|i: int| 0 <= i < k + 1 implies is_space(#[trigger] s[i]) by {
            if i > 0 {
                assert(is_space(rest[i - 1]));
            }
        }
        if k + 1 < s.len() {
            assert(rest[k] == s[k + 1]);
        }
        k + 1
    } else {
        assert(s.subrange(0, s.len() as int) =~= s);
        0
    }
}

proof fn lemma_trimmed_end(s: Seq<char>) -> (k: int)
    ensures
        0 <= k <= s.len(),
        trimmed_end(s) == s.subrange(0, k),
        forall|i: int| k <= i < s.len() ==> is_space(#[trigger] s[i]),
        k > 0 ==> !is_space(s[k - 1]),
    decreases s.len(),
{
    if s.len() > 0 && is_space(s.last()) {
        let k = lemma_trimmed_end(s.drop_last());
        assert(s.drop_last().subrange(0, k) =~= s.subrange(0, k));
        assert forall|i: int| k <= i < s.len() implies is_space(#[trigger] s[i]) by {
            if i < s.len() - 1 {
                assert(is_space(s.drop_last()[i]));
            }
        }
        if k > 0 {
            assert(s.drop_last()[k - 1] == s[k - 1]);
        }
        k
    } else {
        assert(s.subrange(0, s.len() as int) =~= s);
        s.len() as int
    }
}

/// Trimming takes white space and nothing else off both ends, and leaves none
/// there.
pub proof fn law_trimming_takes_only_space(s: Seq<char>)
    ensures
        ({
            let t = trimmed(s);
            &&& exists|from: int, to: int|
                #![trigger s.subrange(from, to)]
                {
                    &&& 0 <= from <= to <= s.len()
                    &&& t == s.subrange(from, to)
                    &&& forall|i: int| 0 <= i < from ==> is_space(#[trigger] s[i])
                    &&& forall|i: int| to <= i < s.len() ==> is_space(#[trigger] s[i])
                }
            &&& t.len() > 0 ==> !is_space(t[0]) && !is_space(t.last())
        }),
{
    let from = lemma_trimmed_start(s);
    let mid = trimmed_start(s);
    let k = lemma_trimmed_end(mid);
    let to = from + k;
    assert(mid.subrange(0, k) =~= s.subrange(from, to));
    assert forall|i: int| to <= i < s.len() implies is_space(#[trigger] s[i]) by {
        assert(mid[i - from] == s[i]);
    }
    if k > 0 {
        assert(mid[0] == s[from]);
        assert(trimmed(s)[0] == mid[0]);
        assert(trimmed(s).last() == mid[k - 1]);
    }
}

/// Taking a character off the end takes all of its copies there, and nothing
/// else.
pub proof fn law_tail_is_taken_off(s: Seq<char>, c: char)
    ensures
        ({
            let t = without_tail(s, c);
            &&& t.len() <= s.len()
            &&& t == s.take(t.len() as int)
            &&& forall|i: int| t.len() <= i < s.len() ==> #[trigger] s[i] == c
            &&& t.len() > 0 ==> t.last() != c
        }),
    decreases s.len(),
{
    if s.len() > 0 && s.last() == c {
        law_tail_is_taken_off(s.drop_last(), c);
        let t = without_tail(s, c);
        assert(s.drop_last().take(t.len() as int) =~= s.take(t.len() as int));
        assert forall|i: int| t.len() <= i < s.len() implies #[trigger] s[i] == c by {
            if i < s.len() - 1 {
                assert(s.drop_last()[i] == c);
            }
        }
    } else {
        assert(s.take(s.len() as int) =~= s);
    }
}

proof fn lemma_digits_prefix(s: Seq<char>, t: Seq<char>, n: int)
    requires
        0 <= n <= s.len(),
        n <= t.len(),
        forall|i: int| 0 <= i < n ==> s[i] == t[i],
    ensures
        digits_value(s, n) == digits_value(t, n),
    decreases n,
{
    if n > 0 {
        lemma_digits_prefix(s, t, n - 1);
    }
}

/// A number written in decimal is read back as the same number, and it is
/// written with digits only and without a leading zero.
pub proof fn law_decimal_reads_back(n: nat)
    ensures
        number_value(decimal(n)) == Some(n),
        decimal(n).len() > 0,
        n > 0 ==> decimal(n)[0] != '0',
        forall|i: int| 0 <= i < decimal(n).len() ==> 48 <= #[trigger] decimal(n)[i] as int <= 57,
    decreases n,
{
    let s = decimal(n);
    if n < 10 {
        assert(s =~= seq![digit(n)]);
        reveal_with_fuel(digits_value, 2);
    } else {
        law_decimal_reads_back(n / 10);
        let before = decimal(n / 10);
        lemma_digits_prefix(s, before, before.len() as int);
        assert(s[0] == before[0]);
        assert forall|i: int| 0 <= i < s.len() implies 48 <= #[trigger] s[i] as int <= 57 by {
            if i < before.len() {
                assert(s[i] == before[i]);
            }
        }
    }
}

/// Only texts of digits are numbers.
pub proof fn law_numbers_are_digits(s: Seq<char>, n: int)
    requires
        0 <= n <= s.len(),
    ensures
        digits_value(s, n) is Some <==> forall|i: int| 0 <= i < n ==> 48 <= #[trigger] s[i] as int
            <= 57,
    decreases n,
{
    if n > 0 {
        law_numbers_are_digits(s, n - 1);
        if forall|i: int| 0 <= i < n ==> 48 <= #[trigger] s[i] as int <= 57 {
            assert(48 <= s[n - 1] as int <= 57);
        }
    }
}

} // verus!
