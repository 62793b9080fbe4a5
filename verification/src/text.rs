//! Character-level text helpers: whitespace trimming, prefixes, joining and
//! splitting, each stated over the `Seq<char>` view of a string.
use vstd::prelude::*;
use vstd::string::*;

verus! {

broadcast use vstd::string::group_string_axioms;

/// `String::push` appends one character to the end of the string.
pub assume_specification[ String::push ](s: &mut String, ch: char)
    ensures
        final(s)@ == old(s)@.push(ch),
;

/// Rust's `char::is_whitespace`: the Unicode `White_Space` property.
pub open spec fn is_ws(c: char) -> bool {
    let u = c as u32;
    ||| 0x09 <= u <= 0x0d
    ||| u == 0x20
    ||| u == 0x85
    ||| u == 0xa0
    ||| u == 0x1680
    ||| 0x2000 <= u <= 0x200a
    ||| u == 0x2028
    ||| u == 0x2029
    ||| u == 0x202f
    ||| u == 0x205f
    ||| u == 0x3000
}

/// The text with its leading whitespace removed (`str::trim_start`).
pub open spec fn trim_start(s: Seq<char>) -> Seq<char>
    decreases s.len(),
{
    if s.len() > 0 && is_ws(s[0]) {
        trim_start(s.drop_first())
    } else {
        s
    }
}

/// The text with its trailing whitespace removed (`str::trim_end`).
pub open spec fn trim_end(s: Seq<char>) -> Seq<char>
    decreases s.len(),
{
    if s.len() > 0 && is_ws(s.last()) {
        trim_end(s.drop_last())
    } else {
        s
    }
}

/// The text with leading and trailing whitespace removed (`str::trim`).
pub open spec fn trim(s: Seq<char>) -> Seq<char> {
    trim_end(trim_start(s))
}

/// The text holds nothing but whitespace (`s.trim().is_empty()`).
pub open spec fn is_blank(s: Seq<char>) -> bool {
    trim(s).len() == 0
}

/// `s` begins with `prefix`.
pub open spec fn starts_with(s: Seq<char>, prefix: Seq<char>) -> bool {
    prefix.len() <= s.len() && s.subrange(0, prefix.len() as int) == prefix
}

/// The pieces joined with `sep` between neighbours (`[..].join(sep)`).
pub open spec fn join(parts: Seq<Seq<char>>, sep: Seq<char>) -> Seq<char>
    decreases parts.len(),
{
    if parts.len() == 0 {
        Seq::empty()
    } else if parts.len() == 1 {
        parts[0]
    } else {
        join(parts.drop_last(), sep) + sep + parts.last()
    }
}

/// The pieces of `s` between occurrences of `sep` (`str::split` on one
/// character); there is always at least one piece.
pub open spec fn split_on(s: Seq<char>, sep: char) -> Seq<Seq<char>>
    decreases s.len(),
{
    if s.len() == 0 {
        seq![Seq::empty()]
    } else {
        let pieces = split_on(s.drop_last(), sep);
        if s.last() == sep {
            pieces.push(Seq::empty())
        } else {
            pieces.update(pieces.len() - 1, pieces.last().push(s.last()))
        }
    }
}

/// The first piece that is not blank, trimmed.
pub open spec fn first_nonblank(pieces: Seq<Seq<char>>) -> Option<Seq<char>>
    decreases pieces.len(),
{
    if pieces.len() == 0 {
        None
    } else if !is_blank(pieces[0]) {
        Some(trim(pieces[0]))
    } else {
        first_nonblank(pieces.drop_first())
    }
}

/// The first line of `value` that is not blank, trimmed, or `fallback` when
/// every line is blank (`value.lines().map(str::trim).find(..)`).
pub open spec fn first_line_or(value: Seq<char>, fallback: Seq<char>) -> Seq<char> {
    match first_nonblank(split_on(value, '\n')) {
        Some(line) => line,
        None => fallback,
    }
}

/// The decimal digit for `d < 10`.
pub open spec fn digit(d: nat) -> char {
    ((d + 48) as u32) as char
}

/// The decimal representation of `n`, as `u64`'s `Display` writes it.
pub open spec fn decimal(n: nat) -> Seq<char>
    decreases n,
{
    if n < 10 {
        seq![digit(n)]
    } else {
        decimal(n / 10).push(digit(n % 10))
    }
}

pub fn is_ws_char(c: char) -> (r: bool)
    ensures
        r == is_ws(c),
{
    let u = c as u32;
    (0x09 <= u && u <= 0x0d) || u == 0x20 || u == 0x85 || u == 0xa0 || u == 0x1680 || (0x2000
        <= u && u <= 0x200a) || u == 0x2028 || u == 0x2029 || u == 0x202f || u == 0x205f || u
        == 0x3000
}

/// The characters of `s`.
pub fn chars_of(s: &str) -> (r: Vec<char>)
    ensures
        r@ == s@,
{
    let mut out: Vec<char> = Vec::new();
    for c in it: s.chars()
        invariant
            out@ == it.seq().take(it.index() as int),
    {
        out.push(c);
    }
    out
}

/// The string made of `cs[lo..hi]`.
pub fn string_of_range(cs: &[char], lo: usize, hi: usize) -> (r: String)
    requires
        lo <= hi <= cs@.len(),
    ensures
        r@ == cs@.subrange(lo as int, hi as int),
{
    let mut out = String::new();
    let mut i = lo;
    while i < hi
        invariant
            lo <= i <= hi <= cs@.len(),
            out@ == cs@.subrange(lo as int, i as int),
        decreases hi - i,
    {
        out.push(cs[i]);
        proof {
            assert(cs@.subrange(lo as int, i as int).push(cs@[i as int]) =~= cs@.subrange(
                lo as int,
                i + 1,
            ));
        }
        i = i + 1;
    }
    out
}

/// The string made of `cs`.
pub fn string_of(cs: &[char]) -> (r: String)
    ensures
        r@ == cs@,
{
    let r = string_of_range(cs, 0, cs.len());
    proof {
        assert(cs@.subrange(0, cs@.len() as int) =~= cs@);
    }
    r
}

/// A copy of a string slice.
pub fn owned(s: &str) -> (r: String)
    ensures
        r@ == s@,
{
    s.to_string()
}

/// `a` followed by `b`.
pub fn concat(a: &str, b: &str) -> (r: String)
    ensures
        r@ == a@ + b@,
{
    let mut out = a.to_string();
    out.append(b);
    out
}

/// The two strings have the same characters.
pub fn text_eq(a: &str, b: &str) -> (r: bool)
    ensures
        r == (a@ == b@),
{
    let ca = chars_of(a);
    let cb = chars_of(b);
    if ca.len() != cb.len() {
        return false;
    }
    let mut i: usize = 0;
    while i < ca.len()
        invariant
            ca@ == a@,
            cb@ == b@,
            ca@.len() == cb@.len(),
            i <= ca@.len(),
            forall|j: int| 0 <= j < i ==> ca@[j] == cb@[j],
        decreases ca@.len() - i,
    {
        if ca[i] != cb[i] {
            return false;
        }
        i = i + 1;
    }
    proof {
        assert(ca@ =~= cb@);
    }
    true
}

proof fn lemma_trim_start_suffix(s: Seq<char>, i: int)
    requires
        0 <= i <= s.len(),
        forall|j: int| 0 <= j < i ==> is_ws(s[j]),
    ensures
        trim_start(s) == trim_start(s.subrange(i, s.len() as int)),
    decreases i,
{
    if i > 0 {
        assert(s.drop_first() =~= s.subrange(1, s.len() as int));
        lemma_trim_start_suffix(s.drop_first(), i - 1);
        assert(s.drop_first().subrange(i - 1, s.drop_first().len() as int) =~= s.subrange(
            i,
            s.len() as int,
        ));
    } else {
        assert(s.subrange(0, s.len() as int) =~= s);
    }
}

proof fn lemma_trim_end_prefix(s: Seq<char>, k: int)
    requires
        0 <= k <= s.len(),
        forall|j: int| k <= j < s.len() ==> is_ws(s[j]),
    ensures
        trim_end(s) == trim_end(s.subrange(0, k)),
    decreases s.len() - k,
{
    if k < s.len() {
        assert(s.drop_last() =~= s.subrange(0, s.len() - 1));
        lemma_trim_end_prefix(s.drop_last(), k);
        assert(s.drop_last().subrange(0, k) =~= s.subrange(0, k));
    } else {
        assert(s.subrange(0, k) =~= s);
    }
}

/// The bounds `lo..hi` of the trimmed text of `cs[start..end]`.
pub fn trim_bounds(cs: &[char], start: usize, end: usize) -> (r: (usize, usize))
    requires
        start <= end <= cs@.len(),
    ensures
        start <= r.0 <= r.1 <= end,
        cs@.subrange(r.0 as int, r.1 as int) == trim(cs@.subrange(start as int, end as int)),
{
    let ghost s = cs@.subrange(start as int, end as int);
    let mut lo: usize = start;
    while lo < end && is_ws_char(cs[lo])
        invariant
            start <= lo <= end <= cs@.len(),
            s == cs@.subrange(start as int, end as int),
            forall|j: int| start <= j < lo ==> is_ws(cs@[j]),
        decreases end - lo,
    {
        lo = lo + 1;
    }
    proof {
        lemma_trim_start_suffix(s, lo - start);
        let rest = cs@.subrange(lo as int, end as int);
        assert(s.subrange(lo - start, s.len() as int) =~= rest);
        if rest.len() > 0 {
            assert(rest[0] == cs@[lo as int]);
        }
        assert(trim_start(rest) == rest);
    }
    let mut hi: usize = end;
    while hi > lo && is_ws_char(cs[hi - 1])
        invariant
            start <= lo <= hi <= end <= cs@.len(),
            forall|j: int| hi <= j < end ==> is_ws(cs@[j]),
        decreases hi - lo,
    {
        hi = hi - 1;
    }
    proof {
        let rest = cs@.subrange(lo as int, end as int);
        lemma_trim_end_prefix(rest, hi - lo);
        assert(rest.subrange(0, hi - lo) =~= cs@.subrange(lo as int, hi as int));
        let t = cs@.subrange(lo as int, hi as int);
        if t.len() > 0 {
            assert(t.last() == cs@[hi - 1]);
        }
        assert(trim_end(t) == t);
    }
    (lo, hi)
}

/// `s.trim()`.
pub fn trimmed(s: &str) -> (r: String)
    ensures
        r@ == trim(s@),
{
    let cs = chars_of(s);
    let (lo, hi) = trim_bounds(&cs, 0, cs.len());
    proof {
        assert(cs@.subrange(0, cs@.len() as int) =~= cs@);
    }
    string_of_range(&cs, lo, hi)
}

/// `s.trim().is_empty()`.
pub fn blank(s: &str) -> (r: bool)
    ensures
        r == is_blank(s@),
{
    let cs = chars_of(s);
    let (lo, hi) = trim_bounds(&cs, 0, cs.len());
    proof {
        assert(cs@.subrange(0, cs@.len() as int) =~= cs@);
    }
    lo == hi
}

/// `s.starts_with(prefix)`, over characters.
pub fn has_prefix(s: &[char], prefix: &str) -> (r: bool)
    ensures
        r == starts_with(s@, prefix@),
{
    let p = chars_of(prefix);
    if p.len() > s.len() {
        return false;
    }
    let mut i: usize = 0;
    while i < p.len()
        invariant
            p@ == prefix@,
            p@.len() <= s@.len(),
            i <= p@.len(),
            forall|j: int| 0 <= j < i ==> s@[j] == p@[j],
        decreases p@.len() - i,
    {
        if s[i] != p[i] {
            assert(s@.subrange(0, p@.len() as int)[i as int] != p@[i as int]);
            return false;
        }
        i = i + 1;
    }
    assert(s@.subrange(0, p@.len() as int) =~= p@);
    true
}

proof fn lemma_join_push(parts: Seq<Seq<char>>, sep: Seq<char>, x: Seq<char>)
    ensures
        join(parts.push(x), sep) == if parts.len() == 0 {
            x
        } else {
            join(parts, sep) + sep + x
        },
{
    assert(parts.push(x).drop_last() =~= parts);
}

/// The strings joined with `sep` between neighbours.
pub fn join_strings(parts: &Vec<String>, sep: &str) -> (r: String)
    ensures
        r@ == join(parts@.map_values(|p: String| p@), sep@),
{
    let ghost views = parts@.map_values(|p: String| p@);
    let mut out = String::new();
    let mut i: usize = 0;
    while i < parts.len()
        invariant
            i <= parts@.len(),
            views == parts@.map_values(|p: String| p@),
            out@ == join(views.take(i as int), sep@),
        decreases parts@.len() - i,
    {
        proof {
            lemma_join_push(views.take(i as int), sep@, views[i as int]);
            assert(views.take(i as int).push(views[i as int]) =~= views.take(i + 1));
        }
        if i > 0 {
            out.append(sep);
        }
        out.append(parts[i].as_str());
        i = i + 1;
    }
    assert(views.take(parts@.len() as int) =~= views);
    out
}

proof fn lemma_split_push(s: Seq<char>, sep: char, c: char)
    ensures
        split_on(s.push(c), sep) == if c == sep {
            split_on(s, sep).push(Seq::empty())
        } else {
            let p = split_on(s, sep);
            p.update(p.len() - 1, p.last().push(c))
        },
{
    assert(s.push(c).drop_last() =~= s);
}

proof fn lemma_split_nonempty(s: Seq<char>, sep: char)
    ensures
        split_on(s, sep).len() >= 1,
    decreases s.len(),
{
    if s.len() > 0 {
        lemma_split_nonempty(s.drop_last(), sep);
    }
}

proof fn lemma_first_nonblank_push(pieces: Seq<Seq<char>>, x: Seq<char>)
    ensures
        first_nonblank(pieces.push(x)) == match first_nonblank(pieces) {
            Some(l) => Some(l),
            None => if is_blank(x) {
                None
            } else {
                Some(trim(x))
            },
        },
    decreases pieces.len(),
{
    let p2 = pieces.push(x);
    if pieces.len() > 0 {
        assert(p2[0] == pieces[0]);
        assert(p2.drop_first() =~= pieces.drop_first().push(x));
        lemma_first_nonblank_push(pieces.drop_first(), x);
        if is_blank(pieces[0]) {
            assert(first_nonblank(p2) == first_nonblank(p2.drop_first()));
            assert(first_nonblank(pieces) == first_nonblank(pieces.drop_first()));
        } else {
            assert(first_nonblank(p2) == Some(trim(pieces[0])));
        }
    } else {
        assert(p2[0] == x);
        assert(p2.drop_first() =~= Seq::<Seq<char>>::empty());
        assert(first_nonblank(Seq::<Seq<char>>::empty()) is None);
        assert(first_nonblank(pieces) is None);
    }
}

proof fn lemma_first_nonblank_append(a: Seq<Seq<char>>, b: Seq<Seq<char>>)
    requires
        first_nonblank(a) is Some,
    ensures
        first_nonblank(a + b) == first_nonblank(a),
    decreases a.len(),
{
    if is_blank(a[0]) {
        assert((a + b).drop_first() =~= a.drop_first() + b);
        lemma_first_nonblank_append(a.drop_first(), b);
    }
}

/// The finished lines of a prefix of the text are the first lines of the text.
proof fn lemma_split_prefix(s: Seq<char>, k: int)
    requires
        0 <= k <= s.len(),
    ensures
        split_on(s.take(k), '\n').drop_last().is_prefix_of(split_on(s, '\n')),
    decreases s.len() - k,
{
    lemma_split_nonempty(s.take(k), '\n');
    if k < s.len() {
        assert(s.take(k).push(s[k]) =~= s.take(k + 1));
        lemma_split_push(s.take(k), '\n', s[k]);
        lemma_split_prefix(s, k + 1);
        let p = split_on(s.take(k), '\n');
        let q = split_on(s.take(k + 1), '\n');
        if s[k] == '\n' {
            assert(q.drop_last() =~= p);
        } else {
            assert(q.drop_last() =~= p.drop_last());
        }
        assert(p.drop_last().is_prefix_of(q.drop_last()));
    } else {
        assert(s.take(k) =~= s);
    }
}

/// The first line of `value` that is not blank, trimmed, or `fallback`.
pub fn first_line_or_fallback(value: &str, fallback: &str) -> (r: String)
    ensures
        r@ == first_line_or(value@, fallback@),
{
    let cs = chars_of(value);
    let n = cs.len();
    // `start` is where the current line begins; `done` holds the finished lines.
    let mut start: usize = 0;
    let mut i: usize = 0;
    let ghost mut done: Seq<Seq<char>> = Seq::empty();
    proof {
        assert(cs@.take(0) =~= Seq::<char>::empty());
        assert(cs@.subrange(0, 0) =~= Seq::<char>::empty());
        assert(done.push(Seq::<char>::empty()) =~= seq![Seq::<char>::empty()]);
    }
    while i < n
        invariant
            cs@ == value@,
            n == cs@.len(),
            start <= i <= n,
            split_on(cs@.take(i as int), '\n') == done.push(cs@.subrange(start as int, i as int)),
            first_nonblank(done) is None,
        decreases n - i,
    {
        let ghost cur = cs@.subrange(start as int, i as int);
        proof {
            assert(cs@.take(i as int).push(cs@[i as int]) =~= cs@.take(i + 1));
            lemma_split_push(cs@.take(i as int), '\n', cs@[i as int]);
            lemma_first_nonblank_push(done, cur);
        }
        if cs[i] == '\n' {
            let (lo, hi) = trim_bounds(&cs, start, i);
            if lo < hi {
                proof {
                    assert(split_on(cs@.take(i + 1), '\n').drop_last() =~= done.push(cur));
                    lemma_split_prefix(cs@, i + 1);
                    let whole = split_on(cs@, '\n');
                    let head = done.push(cur);
                    assert(whole =~= head + whole.subrange(head.len() as int, whole.len() as int));
                    lemma_first_nonblank_append(head, whole.subrange(head.len() as int, whole.len() as int));
                }
                return string_of_range(&cs, lo, hi);
            }
            proof {
                done = done.push(cur);
                assert(cs@.subrange(i + 1, i + 1) =~= Seq::<char>::empty());
            }
            start = i + 1;
        } else {
            proof {
                assert(cur.push(cs@[i as int]) =~= cs@.subrange(start as int, i + 1));
                assert(done.push(cur).update(done.len() as int, cur.push(cs@[i as int])) =~= done.push(
                    cs@.subrange(start as int, i + 1),
                ));
            }
        }
        i = i + 1;
    }
    let (lo, hi) = trim_bounds(&cs, start, n);
    proof {
        assert(cs@.take(n as int) =~= cs@);
        lemma_first_nonblank_push(done, cs@.subrange(start as int, n as int));
    }
    if lo < hi {
        string_of_range(&cs, lo, hi)
    } else {
        owned(fallback)
    }
}

/// `n.to_string()` for an unsigned integer.
pub fn decimal_string(n: u64) -> (r: String)
    ensures
        r@ == decimal(n as nat),
{
    // Digits are gathered least significant first, then written out reversed.
    let mut digits: Vec<char> = Vec::new();
    let mut m: u64 = n;
    loop
        invariant_except_break
            decimal(n as nat) == decimal(m as nat) + digits@.reverse(),
        ensures
            decimal(n as nat) == digits@.reverse(),
        decreases m,
    {
        let c = char_of_digit(m % 10);
        let ghost before = digits@;
        digits.push(c);
        if m < 10 {
            proof {
                lemma_decimal_last_digit(m as nat, before, c);
            }
            break;
        }
        proof {
            lemma_decimal_step(m as nat, before, c);
        }
        m = m / 10;
    }
    let mut out = String::new();
    let mut i = digits.len();
    while i > 0
        invariant
            i <= digits@.len(),
            out@ == digits@.reverse().take((digits@.len() - i) as int),
        decreases i,
    {
        i = i - 1;
        out.push(digits[i]);
        proof {
            assert(digits@.reverse().take((digits@.len() - i) as int) =~= digits@.reverse().take(
                (digits@.len() - i - 1) as int,
            ).push(digits@[i as int]));
        }
    }
    proof {
        assert(digits@.reverse().take(digits@.len() as int) =~= digits@.reverse());
    }
    out
}

proof fn lemma_decimal_last_digit(m: nat, digits: Seq<char>, c: char)
    requires
        m < 10,
        c == digit(m),
    ensures
        decimal(m) + digits.reverse() == digits.push(c).reverse(),
{
    assert(decimal(m) == seq![c]);
    assert(digits.push(c).reverse() =~= seq![c] + digits.reverse());
}

proof fn lemma_decimal_step(m: nat, digits: Seq<char>, c: char)
    requires
        m >= 10,
        c == digit(m % 10),
    ensures
        decimal(m) + digits.reverse() == decimal(m / 10) + digits.push(c).reverse(),
{
    assert(decimal(m) == decimal(m / 10).push(c));
    assert(digits.push(c).reverse() =~= seq![c] + digits.reverse());
    assert(decimal(m / 10).push(c) + digits.reverse() =~= decimal(m / 10) + (seq![c]
        + digits.reverse()));
}

fn char_of_digit(d: u64) -> (c: char)
    requires
        d < 10,
    ensures
        c == digit(d as nat),
{
    let code: u32 = (d as u32) + 48;
    proof {
        assert(code == (d + 48) as u32);
    }
    char_from_ascii(code)
}

fn char_from_ascii(code: u32) -> (c: char)
    requires
        48 <= code < 58,
    ensures
        c == (code as char),
{
    if code == 48 {
        '0'
    } else if code == 49 {
        '1'
    } else if code == 50 {
        '2'
    } else if code == 51 {
        '3'
    } else if code == 52 {
        '4'
    } else if code == 53 {
        '5'
    } else if code == 54 {
        '6'
    } else if code == 55 {
        '7'
    } else if code == 56 {
        '8'
    } else {
        '9'
    }
}

} // verus!
