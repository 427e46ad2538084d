//! Text as sequences of characters: the operations the rest of the library
//! needs, each stated over `Seq<char>`.

use vstd::prelude::*;
use vstd::utf8::*;

verus! {

/// `String::push` appends one character to the end of the string.
pub assume_specification[ String::push ](s: &mut String, c: char)
    ensures
        final(s)@ == old(s)@.push(c),
;

/// What `str::to_lowercase` makes of a text.
pub uninterp spec fn lowercase(s: Seq<char>) -> Seq<char>;

/// `str::to_lowercase` gives the lower-case equivalent of a text.
pub assume_specification[ str::to_lowercase ](s: &str) -> (r: String)
    ensures
        r@ == lowercase(s@),
;

/// Whether `char::is_alphanumeric` holds of a character.
pub uninterp spec fn alphanumeric(c: char) -> bool;

/// `char::is_alphanumeric` says whether a character is a letter or a number.
pub assume_specification[ char::is_alphanumeric ](c: char) -> (r: bool)
    ensures
        r == alphanumeric(c),
;

/// The views of a sequence of strings.
pub open spec fn texts(v: Seq<String>) -> Seq<Seq<char>> {
    v.map_values(|s: String| s@)
}

/// Appending a string appends its view.
pub broadcast proof fn texts_push(v: Seq<String>, s: String)
    ensures
        #[trigger] texts(v.push(s)) == texts(v).push(s@),
{
    assert(texts(v.push(s)) =~= texts(v).push(s@));
}

/// The view of an optional string.
pub open spec fn opt_text(v: Option<String>) -> Option<Seq<char>> {
    match v {
        Some(s) => Some(s@),
        None => None,
    }
}

/// Whether two texts hold the same characters.
pub fn same(a: &str, b: &str) -> (r: bool)
    ensures
        r == (a@ == b@),
{
    let x = a.as_bytes();
    let y = b.as_bytes();
    proof {
        encode_utf8_decode_utf8(a@);
        encode_utf8_decode_utf8(b@);
    }
    if x.len() != y.len() {
        return false;
    }
    let mut i: usize = 0;
    while i < x.len()
        invariant
            x@ == encode_utf8(a@),
            y@ == encode_utf8(b@),
            x.len() == y.len(),
            i <= x.len(),
            forall|k: int| 0 <= k < i ==> x@[k] == y@[k],
        decreases x.len() - i,
    {
        if x[i] != y[i] {
            return false;
        }
        i = i + 1;
    }
    assert(x@ =~= y@);
    true
}

/// The characters of a text.
pub fn chars_of(s: &str) -> (r: Vec<char>)
    ensures
        r@ == s@,
{
    let mut v: Vec<char> = Vec::new();
    for c in it: s.chars()
        invariant
            it.seq() == s@,
            v@ == s@.take(it.index()),
    {
        v.push(c);
        assert(s@.take(it.index() + 1) =~= s@.take(it.index()).push(c));
    }
    assert(s@.take(s@.len() as int) =~= s@);
    v
}

/// The text that the characters from `from` up to `to` spell.
pub fn spell(v: &Vec<char>, from: usize, to: usize) -> (r: String)
    requires
        from <= to <= v@.len(),
    ensures
        r@ == v@.subrange(from as int, to as int),
{
    let mut s = String::new();
    let mut i: usize = from;
    while i < to
        invariant
            from <= i <= to <= v@.len(),
            s@ == v@.subrange(from as int, i as int),
        decreases to - i,
    {
        s.push(v[i]);
        i = i + 1;
        assert(v@.subrange(from as int, i as int) =~= v@.subrange(from as int, i - 1).push(v@[i - 1]));
    }
    s
}

/// Whether a character is white space: the characters with the Unicode
/// property White_Space.
pub open spec fn is_space(c: char) -> bool {
    let n = c as u32;
    ||| 0x9 <= n <= 0xd
    ||| n == 0x20
    ||| n == 0x85
    ||| n == 0xa0
    ||| n == 0x1680
    ||| 0x2000 <= n <= 0x200a
    ||| n == 0x2028
    ||| n == 0x2029
    ||| n == 0x202f
    ||| n == 0x205f
    ||| n == 0x3000
}

/// Whether a character is white space.
pub fn white_space(c: char) -> (r: bool)
    ensures
        r == is_space(c),
{
    let n: u32 = c as u32;
    (0x9 <= n && n <= 0xd) || n == 0x20 || n == 0x85 || n == 0xa0 || n == 0x1680 || (0x2000 <= n && n
        <= 0x200a) || n == 0x2028 || n == 0x2029 || n == 0x202f || n == 0x205f || n == 0x3000
}

/// The text without its leading white space.
pub open spec fn trim_start(s: Seq<char>) -> Seq<char>
    decreases s.len(),
{
    if s.len() > 0 && is_space(s[0]) {
        trim_start(s.skip(1))
    } else {
        s
    }
}

/// The text without its trailing white space.
pub open spec fn trim_end(s: Seq<char>) -> Seq<char>
    decreases s.len(),
{
    if s.len() > 0 && is_space(s.last()) {
        trim_end(s.drop_last())
    } else {
        s
    }
}

/// The text without white space at either end.
pub open spec fn trimmed(s: Seq<char>) -> Seq<char> {
    trim_end(trim_start(s))
}

/// Whether a text holds white space only.
pub open spec fn is_blank(s: Seq<char>) -> bool {
    forall|i: int| 0 <= i < s.len() ==> is_space(#[trigger] s[i])
}

/// Where the text without leading white space begins.
fn trim_start_at(v: &Vec<char>) -> (r: usize)
    ensures
        r <= v@.len(),
        v@.skip(r as int) == trim_start(v@),
        r < v@.len() ==> !is_space(v@[r as int]),
        forall|i: int| 0 <= i < r ==> is_space(#[trigger] v@[i]),
{
    let mut i: usize = 0;
    assert(v@.skip(0) =~= v@);
    while i < v.len() && white_space(v[i])
        invariant
            i <= v@.len(),
            trim_start(v@.skip(i as int)) == trim_start(v@),
            forall|k: int| 0 <= k < i ==> is_space(#[trigger] v@[k]),
        decreases v@.len() - i,
    {
        assert(v@.skip(i as int).skip(1) =~= v@.skip(i + 1));
        i = i + 1;
    }
    i
}

/// Where the text without trailing white space ends, looking no further back
/// than `from`.
fn trim_end_at(v: &Vec<char>, from: usize) -> (r: usize)
    requires
        from <= v@.len(),
    ensures
        from <= r <= v@.len(),
        v@.subrange(from as int, r as int) == trim_end(v@.skip(from as int)),
        r > from ==> !is_space(v@[r - 1]),
{
    let mut n: usize = v.len();
    assert(v@.subrange(from as int, n as int) =~= v@.skip(from as int));
    while n > from && white_space(v[n - 1])
        invariant
            from <= n <= v@.len(),
            trim_end(v@.subrange(from as int, n as int)) == trim_end(v@.skip(from as int)),
        decreases n,
    {
        assert(v@.subrange(from as int, n as int).drop_last() =~= v@.subrange(from as int, n - 1));
        n = n - 1;
    }
    n
}

/// The text without white space at either end, as a value of its own.
pub fn trim(s: &str) -> (r: String)
    ensures
        r@ == trimmed(s@),
{
    let v = chars_of(s);
    let a: usize = trim_start_at(&v);
    let b: usize = trim_end_at(&v, a);
    spell(&v, a, b)
}

/// The text without its leading white space, as a value of its own.
pub fn trim_front(s: &str) -> (r: String)
    ensures
        r@ == trim_start(s@),
{
    let v = chars_of(s);
    let a: usize = trim_start_at(&v);
    assert(v@.subrange(a as int, v@.len() as int) =~= v@.skip(a as int));
    spell(&v, a, v.len())
}

/// A text is blank exactly if nothing is left of it when trimmed.
pub proof fn lemma_blank(s: Seq<char>)
    ensures
        is_blank(s) <==> trimmed(s).len() == 0,
        is_blank(s) <==> trim_start(s).len() == 0,
{
    lemma_trim_start(s);
    lemma_trim_end(trim_start(s));
    let n = s.len() - trim_start(s).len();
    if is_blank(s) {
        if trim_start(s).len() > 0 {
            assert(is_space(s[n]));
            assert(trim_start(s)[0] == s[n]);
        }
    } else {
        if trim_start(s).len() == 0 {
            assert forall|i: int| 0 <= i < s.len() implies is_space(#[trigger] s[i]) by {}
        }
    }
}

/// What trimming the start leaves: a suffix that begins with no white space,
/// after nothing but white space.
pub proof fn lemma_trim_start(s: Seq<char>)
    ensures
        trim_start(s).len() <= s.len(),
        trim_start(s) == s.skip(s.len() - trim_start(s).len()),
        trim_start(s).len() > 0 ==> !is_space(trim_start(s)[0]),
        forall|i: int| 0 <= i < s.len() - trim_start(s).len() ==> is_space(#[trigger] s[i]),
    decreases s.len(),
{
    if s.len() > 0 && is_space(s[0]) {
        let t = s.skip(1);
        lemma_trim_start(t);
        let n = s.len() - trim_start(s).len();
        assert(t.skip(t.len() - trim_start(t).len()) =~= s.skip(n));
        assert forall|i: int| 0 <= i < n implies is_space(#[trigger] s[i]) by {
            if i > 0 {
                assert(s[i] == t[i - 1]);
            }
        }
    } else {
        assert(s.skip(0) =~= s);
    }
}

/// What trimming the end leaves: a prefix that ends with no white space,
/// before nothing but white space.
pub proof fn lemma_trim_end(s: Seq<char>)
    ensures
        trim_end(s).len() <= s.len(),
        trim_end(s) == s.take(trim_end(s).len() as int),
        trim_end(s).len() > 0 ==> !is_space(trim_end(s).last()),
        forall|i: int| trim_end(s).len() <= i < s.len() ==> is_space(#[trigger] s[i]),
        s.len() > 0 && !is_space(s[0]) ==> trim_end(s).len() > 0,
    decreases s.len(),
{
    if s.len() > 0 && is_space(s.last()) {
        let t = s.drop_last();
        lemma_trim_end(t);
        assert(t.take(trim_end(t).len() as int) =~= s.take(trim_end(t).len() as int));
        assert forall|i: int| trim_end(s).len() <= i < s.len() implies is_space(#[trigger] s[i]) by {
            if i < s.len() - 1 {
                assert(s[i] == t[i]);
            }
        }
        if !is_space(s[0]) {
            assert(t.len() > 0);
        }
    } else {
        assert(s.take(s.len() as int) =~= s);
    }
}

/// Whether a text holds white space only.
pub fn blank(s: &str) -> (r: bool)
    ensures
        r == is_blank(s@),
{
    let v = chars_of(s);
    let mut i: usize = 0;
    while i < v.len()
        invariant
            v@ == s@,
            i <= v@.len(),
            forall|k: int| 0 <= k < i ==> is_space(#[trigger] s@[k]),
        decreases v@.len() - i,
    {
        if !white_space(v[i]) {
            assert(!is_space(s@[i as int]));
            return false;
        }
        i = i + 1;
    }
    true
}

/// The decimal digit of a number below ten.
pub open spec fn digit(d: nat) -> char {
    (48 + d) as char
}

/// A number written in decimal.
pub open spec fn decimal(n: nat) -> Seq<char>
    decreases n,
{
    if n < 10 {
        seq![digit(n)]
    } else {
        decimal(n / 10).push(digit(n % 10))
    }
}

/// Writes a number in decimal.
pub fn show(n: u64) -> (r: String)
    ensures
        r@ == decimal(n as nat),
{
    show_wide(n as u128)
}

/// Writes a number in decimal.
pub fn show_wide(n: u128) -> (r: String)
    ensures
        r@ == decimal(n as nat),
    decreases n,
{
    let d: u8 = (n % 10) as u8;
    let c: char = (48u8 + d) as char;
    assert(c == digit((n % 10) as nat));
    if n < 10 {
        let mut s = String::new();
        s.push(c);
        assert(s@ =~= seq![c]);
        s
    } else {
        let mut s = show_wide(n / 10);
        s.push(c);
        s
    }
}

/// An integer written in decimal, with a sign where it is negative.
pub open spec fn signed_decimal(n: int) -> Seq<char> {
    if n < 0 {
        "-"@ + decimal((-n) as nat)
    } else {
        decimal(n as nat)
    }
}

/// Writes an integer in decimal.
pub fn show_signed(n: i64) -> (r: String)
    ensures
        r@ == signed_decimal(n as int),
{
    if n < 0 {
        let mut s = String::from_str("-");
        let magnitude: i128 = -(n as i128);
        let digits = show_wide(magnitude as u128);
        s.append(digits.as_str());
        s
    } else {
        show(n as u64)
    }
}

/// The parts with a separator between each two.
pub open spec fn joined(parts: Seq<Seq<char>>, sep: Seq<char>) -> Seq<char>
    decreases parts.len(),
{
    if parts.len() == 0 {
        Seq::empty()
    } else if parts.len() == 1 {
        parts[0]
    } else {
        joined(parts.drop_last(), sep) + sep + parts.last()
    }
}

/// Puts a separator between each two of the parts.
pub fn join(parts: &Vec<String>, sep: &str) -> (r: String)
    ensures
        r@ == joined(texts(parts@), sep@),
{
    let mut s = String::new();
    let mut i: usize = 0;
    let ghost all = texts(parts@);
    while i < parts.len()
        invariant
            i <= parts@.len(),
            all == texts(parts@),
            s@ == joined(all.take(i as int), sep@),
        decreases parts@.len() - i,
    {
        assert(all.take(i + 1).drop_last() =~= all.take(i as int));
        assert(all.take(i + 1).last() == parts@[i as int]@);
        if i > 0 {
            s.append(sep);
            s.append(parts[i].as_str());
        } else {
            s.append(parts[i].as_str());
            assert(s@ =~= parts@[0]@);
        }
        i = i + 1;
    }
    assert(all.take(all.len() as int) =~= all);
    s
}

/// Whether one text begins with another.
pub fn starts_with(s: &str, prefix: &str) -> (r: bool)
    ensures
        r == prefix@.is_prefix_of(s@),
{
    let v = chars_of(s);
    let p = chars_of(prefix);
    starts_at(&v, &p, 0)
}

/// Whether the characters from a position on begin with others.
pub fn starts_at(v: &Vec<char>, p: &Vec<char>, at: usize) -> (r: bool)
    requires
        at <= v@.len(),
    ensures
        r == p@.is_prefix_of(v@.skip(at as int)),
{
    if p.len() > v.len() - at {
        return false;
    }
    let mut i: usize = 0;
    while i < p.len()
        invariant
            at <= v@.len(),
            v@.len() == v.len(),
            p@.len() <= v@.len() - at,
            i <= p@.len(),
            forall|k: int| 0 <= k < i ==> p@[k] == v@.skip(at as int)[k],
        decreases p@.len() - i,
    {
        assert(v@.skip(at as int)[i as int] == v@[at + i]);
        if p[i] != v[at + i] {
            assert(p@.is_prefix_of(v@.skip(at as int)) ==> p@[i as int] == v@.skip(at as int).subrange(
                0,
                p@.len() as int,
            )[i as int]);
            return false;
        }
        i = i + 1;
    }
    assert(p@ =~= v@.skip(at as int).subrange(0, p@.len() as int));
    true
}

/// Whether a text occurs in another.
pub open spec fn occurs(needle: Seq<char>, s: Seq<char>) -> bool {
    exists|i: int| 0 <= i <= s.len() && needle.is_prefix_of(#[trigger] s.skip(i))
}

/// Whether a text occurs in another.
pub fn contains(s: &str, needle: &str) -> (r: bool)
    ensures
        r == occurs(needle@, s@),
{
    let v = chars_of(s);
    let p = chars_of(needle);
    let mut i: usize = 0;
    while i <= v.len()
        invariant
            v@ == s@,
            p@ == needle@,
            i <= v@.len() + 1,
            forall|k: int| 0 <= k < i ==> !needle@.is_prefix_of(#[trigger] s@.skip(k)),
        decreases v@.len() + 1 - i,
    {
        if starts_at(&v, &p, i) {
            return true;
        }
        if i == v.len() {
            return false;
        }
        i = i + 1;
    }
    false
}

/// How far the first line reaches.
pub open spec fn line_len(s: Seq<char>) -> nat
    decreases s.len(),
{
    if s.len() == 0 || s[0] == '\n' {
        0
    } else {
        1 + line_len(s.skip(1))
    }
}

/// A line without the carriage return that stood before its line feed.
pub open spec fn without_cr(s: Seq<char>) -> Seq<char> {
    if s.len() > 0 && s.last() == '\r' {
        s.drop_last()
    } else {
        s
    }
}

pub proof fn lemma_line_len(s: Seq<char>)
    ensures
        line_len(s) <= s.len(),
        line_len(s) < s.len() ==> s[line_len(s) as int] == '\n',
        forall|i: int| 0 <= i < line_len(s) ==> #[trigger] s[i] != '\n',
    decreases s.len(),
{
    if s.len() > 0 && s[0] != '\n' {
        let t = s.skip(1);
        lemma_line_len(t);
        assert forall|i: int| 0 <= i < line_len(s) implies #[trigger] s[i] != '\n' by {
            if i > 0 {
                assert(s[i] == t[i - 1]);
            }
        }
    }
}

/// The lines of a text. A line ends at a line feed, before which a carriage
/// return does not count; a line end at the very end starts no new line.
pub open spec fn lines(s: Seq<char>) -> Seq<Seq<char>>
    decreases s.len(),
{
    if s.len() == 0 {
        Seq::empty()
    } else if line_len(s) >= s.len() {
        seq![s]
    } else {
        seq![without_cr(s.take(line_len(s) as int))] + lines(s.skip(line_len(s) as int + 1))
    }
}

/// Splits a text into its lines.
pub fn split_lines(s: &str) -> (r: Vec<String>)
    ensures
        texts(r@) == lines(s@),
{
    let v = chars_of(s);
    let mut out: Vec<String> = Vec::new();
    let mut at: usize = 0;
    assert(v@.skip(0) =~= v@);
    assert(texts(out@) + lines(v@) =~= lines(v@));
    while at < v.len()
        invariant
            v@ == s@,
            at <= v@.len(),
            texts(out@) + lines(v@.skip(at as int)) == lines(s@),
        decreases v@.len() - at,
    {
        let ghost rest = v@.skip(at as int);
        proof {
            lemma_line_len(rest);
        }
        let mut end: usize = at;
        while end < v.len() && v[end] != '\n'
            invariant
                at <= end <= v@.len(),
                rest == v@.skip(at as int),
                end - at <= line_len(rest),
                line_len(rest) <= rest.len(),
                line_len(rest) < rest.len() ==> rest[line_len(rest) as int] == '\n',
                forall|i: int| 0 <= i < line_len(rest) ==> #[trigger] rest[i] != '\n',
            decreases v@.len() - end,
        {
            assert(rest[end - at] == v@[end as int]);
            end = end + 1;
        }
        assert(end < v@.len() ==> rest[end - at] == v@[end as int]);
        assert(end - at == line_len(rest));
        let ghost before = texts(out@);
        if end == v.len() {
            let line = spell(&v, at, end);
            assert(line@ =~= rest);
            out.push(line);
            assert(texts(out@) =~= before.push(line@));
            assert(lines(rest) =~= seq![rest]);
            assert(lines(v@.skip(end as int)) =~= Seq::<Seq<char>>::empty());
            assert(texts(out@) =~= before + lines(rest));
            assert(texts(out@) + lines(v@.skip(end as int)) =~= texts(out@));
            at = end;
        } else {
            let stop: usize = if end > at && v[end - 1] == '\r' { end - 1 } else { end };
            let line = spell(&v, at, stop);
            assert(rest.take(line_len(rest) as int) =~= v@.subrange(at as int, end as int));
            assert(line@ =~= without_cr(rest.take(line_len(rest) as int)));
            out.push(line);
            assert(texts(out@) =~= before.push(line@));
            assert(rest.skip(line_len(rest) as int + 1) =~= v@.skip(end + 1));
            assert(texts(out@) + lines(v@.skip(end + 1)) =~= before + lines(rest));
            at = end + 1;
        }
    }
    assert(lines(v@.skip(at as int)) =~= Seq::<Seq<char>>::empty());
    assert(texts(out@) + lines(v@.skip(at as int)) =~= texts(out@));
    out
}

/// Where the first line feed stands, the first line ends.
proof fn lemma_line_len_is(s: Seq<char>, n: nat)
    requires
        n < s.len(),
        s[n as int] == '\n',
        forall|i: int| 0 <= i < n ==> #[trigger] s[i] != '\n',
    ensures
        line_len(s) == n,
    decreases s.len(),
{
    if n > 0 {
        let t = s.skip(1);
        assert forall|i: int| 0 <= i < n - 1 implies #[trigger] t[i] != '\n' by {
            assert(t[i] == s[i + 1]);
        }
        assert(s[0] != '\n');
        lemma_line_len_is(t, (n - 1) as nat);
    }
}

/// Joining puts the first part, a separator, and the others joined.
pub proof fn lemma_joined_front(parts: Seq<Seq<char>>, sep: Seq<char>)
    requires
        parts.len() >= 2,
    ensures
        joined(parts, sep) == parts[0] + sep + joined(parts.skip(1), sep),
    decreases parts.len(),
{
    if parts.len() == 2 {
        assert(joined(parts.skip(1), sep) == parts[1]);
        assert(joined(parts.drop_last(), sep) == parts[0]);
        assert(joined(parts, sep) =~= parts[0] + sep + parts[1]);
    } else {
        let d = parts.drop_last();
        lemma_joined_front(d, sep);
        assert(d.skip(1) =~= parts.skip(1).drop_last());
        assert(parts.skip(1).last() == parts.last());
        assert(joined(parts, sep) =~= parts[0] + sep + joined(parts.skip(1), sep));
    }
}

/// Whether a text can be a line of a file: it holds no line feed and does not
/// end with a carriage return.
pub open spec fn plain_line(s: Seq<char>) -> bool {
    &&& forall|i: int| 0 <= i < s.len() ==> #[trigger] s[i] != '\n'
    &&& s.len() > 0 ==> s.last() != '\r'
}

/// Lines put together, each with a line feed behind it, are read back as they
/// were.
pub proof fn lemma_lines_of_joined(parts: Seq<Seq<char>>)
    requires
        parts.len() > 0,
        forall|i: int| 0 <= i < parts.len() ==> plain_line(#[trigger] parts[i]),
    ensures
        lines(joined(parts, "\n"@) + "\n"@) == parts,
    decreases parts.len(),
{
    reveal_strlit("\n");
    let nl = "\n"@;
    let first = parts[0];
    let s = joined(parts, nl) + nl;
    let rest: Seq<char> = if parts.len() == 1 {
        Seq::empty()
    } else {
        joined(parts.skip(1), nl) + nl
    };
    if parts.len() >= 2 {
        lemma_joined_front(parts, nl);
    }
    assert(s =~= first + nl + rest);
    let n = first.len();
    assert(s[n as int] == '\n');
    assert forall|i: int| 0 <= i < n implies #[trigger] s[i] != '\n' by {
        assert(s[i] == first[i]);
    }
    lemma_line_len_is(s, n);
    assert(s.take(n as int) =~= first);
    assert(without_cr(first) == first);
    assert(s.skip(n as int + 1) =~= rest);
    if parts.len() == 1 {
        assert(lines(rest) =~= Seq::<Seq<char>>::empty());
        assert(lines(s) =~= parts);
    } else {
        let tail = parts.skip(1);
        assert forall|i: int| 0 <= i < tail.len() implies plain_line(#[trigger] tail[i]) by {
            assert(tail[i] == parts[i + 1]);
        }
        lemma_lines_of_joined(tail);
        assert(lines(s) =~= parts);
    }
}

/// No line of a text holds a line feed.
pub proof fn lemma_lines_hold_no_feed(s: Seq<char>)
    ensures
        forall|i: int, j: int|
            0 <= i < lines(s).len() && 0 <= j < lines(s)[i].len() ==> #[trigger] lines(s)[i][j]
                != '\n',
    decreases s.len(),
{
    lemma_line_len(s);
    if s.len() == 0 {
    } else if line_len(s) >= s.len() {
    } else {
        let rest = s.skip(line_len(s) as int + 1);
        lemma_lines_hold_no_feed(rest);
        let head = without_cr(s.take(line_len(s) as int));
        assert forall|i: int, j: int|
            0 <= i < lines(s).len() && 0 <= j < lines(s)[i].len() implies #[trigger] lines(s)[i][j]
            != '\n' by {
            if i == 0 {
                assert(lines(s)[0] == head);
                assert(head[j] == s[j]);
            } else {
                assert(lines(s)[i] == lines(rest)[i - 1]);
            }
        }
    }
}

/// Whether one text comes before another in the order of their characters.
pub open spec fn precedes(a: Seq<char>, b: Seq<char>) -> bool
    decreases a.len(),
{
    if b.len() == 0 {
        false
    } else if a.len() == 0 {
        true
    } else if a[0] != b[0] {
        (a[0] as int) < (b[0] as int)
    } else {
        precedes(a.skip(1), b.skip(1))
    }
}

/// Of two different texts one comes before the other.
pub proof fn lemma_precedes_total(a: Seq<char>, b: Seq<char>)
    ensures
        a == b || precedes(a, b) || precedes(b, a),
        !precedes(a, a),
        !(precedes(a, b) && precedes(b, a)),
    decreases a.len(),
{
    if a.len() == 0 {
        if b.len() == 0 {
            assert(a =~= b);
        }
    } else {
        lemma_precedes_total(a.skip(1), a.skip(1));
        assert(b.len() == 0 ==> precedes(b, a));
        assert(b.len() > 0 && a[0] != b[0] ==> precedes(b, a) || precedes(a, b));
        if b.len() > 0 && a[0] == b[0] {
            lemma_precedes_total(a.skip(1), b.skip(1));
            if a.skip(1) == b.skip(1) {
                assert forall|i: int| 0 <= i < a.len() implies a[i] == b[i] by {
                    if i > 0 {
                        assert(a[i] == a.skip(1)[i - 1]);
                        assert(b[i] == b.skip(1)[i - 1]);
                    }
                }
                assert(a.len() == a.skip(1).len() + 1);
                assert(b.len() == b.skip(1).len() + 1);
                assert(a =~= b);
            }
        }
    }
}

/// The order of texts is transitive.
pub proof fn lemma_precedes_transitive(a: Seq<char>, b: Seq<char>, c: Seq<char>)
    requires
        precedes(a, b),
        precedes(b, c),
    ensures
        precedes(a, c),
    decreases a.len(),
{
    if a.len() > 0 && a[0] == b[0] && b[0] == c[0] {
        lemma_precedes_transitive(a.skip(1), b.skip(1), c.skip(1));
    }
}

/// The number of a character.
pub fn code_point(c: char) -> (r: u32)
    ensures
        r == c as int,
{
    c as u32
}

/// Whether one text comes before another.
pub fn comes_before(a: &str, b: &str) -> (r: bool)
    ensures
        r == precedes(a@, b@),
{
    let x = chars_of(a);
    let y = chars_of(b);
    let mut i: usize = 0;
    assert(x@.skip(0) =~= x@);
    assert(y@.skip(0) =~= y@);
    while i < x.len() && i < y.len()
        invariant
            x@ == a@,
            y@ == b@,
            i <= x@.len(),
            i <= y@.len(),
            precedes(x@.skip(i as int), y@.skip(i as int)) == precedes(a@, b@),
        decreases x@.len() - i,
    {
        assert(x@.skip(i as int)[0] == x@[i as int]);
        assert(y@.skip(i as int)[0] == y@[i as int]);
        if x[i] != y[i] {
            return code_point(x[i]) < code_point(y[i]);
        }
        assert(x@.skip(i as int).skip(1) =~= x@.skip(i + 1));
        assert(y@.skip(i as int).skip(1) =~= y@.skip(i + 1));
        i = i + 1;
    }
    i < y.len()
}

/// Whether each text comes before the ones behind it.
pub open spec fn sorted(v: Seq<Seq<char>>) -> bool {
    forall|i: int, j: int| 0 <= i < j < v.len() ==> precedes(#[trigger] v[i], #[trigger] v[j])
}

/// Sorts texts of which none occurs twice.
pub fn sort(v: Vec<String>) -> (r: Vec<String>)
    requires
        texts(v@).no_duplicates(),
    ensures
        sorted(texts(r@)),
        r@.len() == v@.len(),
        forall|t: Seq<char>| texts(r@).contains(t) <==> texts(v@).contains(t),
{
    broadcast use texts_push;

    let mut v = v;
    let ghost all = texts(v@);
    let mut out: Vec<String> = Vec::new();
    while v.len() > 0
        invariant
            all.no_duplicates(),
            v@.len() + out@.len() == all.len(),
            texts(v@) == all.take(v@.len() as int),
            sorted(texts(out@)),
            forall|t: Seq<char>|
                texts(out@).contains(t) <==> all.skip(v@.len() as int).contains(t),
        decreases v@.len(),
    {
        let ghost n = v@.len() as int;
        let x = v.pop().unwrap();
        assert(x@ == all.take(n)[n - 1]);
        assert(texts(v@) =~= all.take(n - 1));
        let ghost before = texts(out@);
        let mut i: usize = 0;
        while i < out.len() && comes_before(out[i].as_str(), x.as_str())
            invariant
                i <= out@.len(),
                before == texts(out@),
                forall|k: int| 0 <= k < i ==> precedes(#[trigger] before[k], x@),
            decreases out@.len() - i,
        {
            assert(before[i as int] == out@[i as int]@);
            i = i + 1;
        }
        proof {
            assert(!before.contains(x@)) by {
                if before.contains(x@) {
                    assert(all.skip(n).contains(x@));
                    let j = all.skip(n).index_of(x@);
                    assert(all[n + j] == x@ && all[n - 1] == x@);
                }
            }
            assert forall|k: int| i <= k < before.len() implies precedes(x@, #[trigger] before[k]) by {
                assert(before[i as int] == out@[i as int]@);
                lemma_precedes_total(before[i as int], x@);
                assert(before.contains(before[i as int]));
                if k > i {
                    lemma_precedes_transitive(x@, before[i as int], before[k]);
                }
            }
        }
        out.insert(i, x);
        let ghost after = texts(out@);
        assert(after =~= before.insert(i as int, x@));
        assert forall|a: int, b: int| 0 <= a < b < after.len() implies precedes(
            #[trigger] after[a],
            #[trigger] after[b],
        ) by {
            let a2: int = if a < i { a } else { a - 1 };
            let b2: int = if b < i { b } else { b - 1 };
            if a != i {
                assert(after[a] == before[a2]);
            }
            if b != i {
                assert(after[b] == before[b2]);
            }
        }
        assert forall|t: Seq<char>| after.contains(t) <==> all.skip(n - 1).contains(t) by {
            assert(all.skip(n - 1)[0] == x@);
            assert(after[i as int] == x@);
            if before.contains(t) {
                let k = before.index_of(t);
                let k2: int = if k < i { k } else { k + 1 };
                assert(after[k2] == t);
            }
            if after.contains(t) && t != x@ {
                let k = after.index_of(t);
                let k2: int = if k < i { k } else { k - 1 };
                assert(before[k2] == t);
            }
            if all.skip(n).contains(t) {
                let k = all.skip(n).index_of(t);
                assert(all.skip(n - 1)[k + 1] == t);
            }
            if all.skip(n - 1).contains(t) && t != x@ {
                let k = all.skip(n - 1).index_of(t);
                assert(all.skip(n)[k - 1] == t);
            }
        }
    }
    assert(all.skip(0) =~= all);
    out
}

/// How far the first characters reach that are not white space.
pub open spec fn word_len(s: Seq<char>) -> nat
    decreases s.len(),
{
    if s.len() == 0 || is_space(s[0]) {
        0
    } else {
        1 + word_len(s.skip(1))
    }
}

pub proof fn lemma_word_len(s: Seq<char>)
    ensures
        word_len(s) <= s.len(),
        word_len(s) < s.len() ==> is_space(s[word_len(s) as int]),
        forall|i: int| 0 <= i < word_len(s) ==> !is_space(#[trigger] s[i]),
        s.len() > 0 && !is_space(s[0]) ==> word_len(s) > 0,
    decreases s.len(),
{
    if s.len() > 0 && !is_space(s[0]) {
        let t = s.skip(1);
        lemma_word_len(t);
        assert forall|i: int| 0 <= i < word_len(s) implies !is_space(#[trigger] s[i]) by {
            if i > 0 {
                assert(s[i] == t[i - 1]);
            }
        }
    }
}

/// The words of a text: what white space leaves between itself.
pub open spec fn words(s: Seq<char>) -> Seq<Seq<char>>
    decreases s.len(),
{
    let t = trim_start(s);
    if t.len() == 0 {
        Seq::empty()
    } else {
        proof {
            lemma_trim_start(s);
            lemma_word_len(t);
        }
        seq![t.take(word_len(t) as int)] + words(t.skip(word_len(t) as int))
    }
}

/// Whether a text is one word: it is not empty and holds no white space.
pub open spec fn is_word(s: Seq<char>) -> bool {
    &&& s.len() > 0
    &&& forall|i: int| 0 <= i < s.len() ==> !is_space(#[trigger] s[i])
}

/// Every word of a text is one word.
pub proof fn lemma_words_are_words(s: Seq<char>)
    ensures
        forall|i: int| 0 <= i < words(s).len() ==> is_word(#[trigger] words(s)[i]),
        words(s).len() == 0 <==> is_blank(s),
    decreases s.len(),
{
    let t = trim_start(s);
    lemma_trim_start(s);
    lemma_word_len(t);
    lemma_blank(s);
    if t.len() > 0 {
        let n = word_len(t) as int;
        lemma_words_are_words(t.skip(n));
        let first = t.take(n);
        assert(is_word(first)) by {
            assert forall|i: int| 0 <= i < first.len() implies !is_space(#[trigger] first[i]) by {
                assert(first[i] == t[i]);
            }
        }
        assert forall|i: int| 0 <= i < words(s).len() implies is_word(#[trigger] words(s)[i]) by {
            if i > 0 {
                assert(words(s)[i] == words(t.skip(n))[i - 1]);
            }
        }
    }
}

/// A word at the start of a text is its first word.
proof fn lemma_first_word(w: Seq<char>, rest: Seq<char>)
    requires
        is_word(w),
        rest.len() > 0 ==> is_space(rest[0]),
    ensures
        words(w + rest) == seq![w] + words(rest),
{
    let s = w + rest;
    assert(s[0] == w[0]);
    assert(!is_space(w[0]));
    assert(trim_start(s) == s);
    lemma_word_len(s);
    assert(word_len(s) == w.len()) by {
        let n = word_len(s);
        if n < w.len() {
            assert(s[n as int] == w[n as int]);
        }
        if n > w.len() {
            assert(s[w.len() as int] == rest[0]);
        }
    }
    assert(s.take(w.len() as int) =~= w);
    assert(s.skip(w.len() as int) =~= rest);
}

/// Leading white space does not count.
proof fn lemma_words_skip_space(s: Seq<char>)
    requires
        s.len() > 0,
        is_space(s[0]),
    ensures
        words(s) == words(s.skip(1)),
{
    assert(trim_start(s) == trim_start(s.skip(1)));
}

/// Words with a space between each two are read back as they were.
pub proof fn lemma_words_of_joined(v: Seq<Seq<char>>)
    requires
        forall|i: int| 0 <= i < v.len() ==> is_word(#[trigger] v[i]),
    ensures
        words(joined(v, " "@)) == v,
    decreases v.len(),
{
    reveal_strlit(" ");
    let sep = " "@;
    if v.len() == 0 {
        assert(words(joined(v, sep)) =~= v);
    } else if v.len() == 1 {
        lemma_first_word(v[0], Seq::empty());
        assert(v[0] + Seq::<char>::empty() =~= v[0]);
        assert(words(Seq::<char>::empty()) =~= Seq::<Seq<char>>::empty());
        assert(words(joined(v, sep)) =~= v);
    } else {
        let tail = v.skip(1);
        assert forall|i: int| 0 <= i < tail.len() implies is_word(#[trigger] tail[i]) by {
            assert(tail[i] == v[i + 1]);
        }
        lemma_words_of_joined(tail);
        lemma_joined_front(v, sep);
        let rest = sep + joined(tail, sep);
        assert(joined(v, sep) =~= v[0] + rest);
        assert(rest[0] == ' ');
        lemma_first_word(v[0], rest);
        lemma_words_skip_space(rest);
        assert(rest.skip(1) =~= joined(tail, sep));
        assert(words(joined(v, sep)) =~= v);
    }
}

/// Splits a text into its words.
pub fn split_words(s: &str) -> (r: Vec<String>)
    ensures
        texts(r@) == words(s@),
{
    broadcast use texts_push;

    let v = chars_of(s);
    let mut out: Vec<String> = Vec::new();
    let mut at: usize = 0;
    assert(v@.skip(0) =~= v@);
    assert(texts(out@) + words(v@) =~= words(v@));
    while at < v.len()
        invariant
            v@ == s@,
            at <= v@.len(),
            texts(out@) + words(v@.skip(at as int)) == words(s@),
        decreases v@.len() - at,
    {
        let ghost rest = v@.skip(at as int);
        assert(rest[0] == v@[at as int]);
        if white_space(v[at]) {
            proof {
                lemma_words_skip_space(rest);
            }
            assert(rest.skip(1) =~= v@.skip(at + 1));
            at = at + 1;
        } else {
            let mut end: usize = at;
            while end < v.len() && !white_space(v[end])
                invariant
                    at <= end <= v@.len(),
                    forall|k: int| at <= k < end ==> !is_space(#[trigger] v@[k]),
                decreases v@.len() - end,
            {
                end = end + 1;
            }
            let word = spell(&v, at, end);
            let ghost before = texts(out@);
            proof {
                let tail = v@.skip(end as int);
                assert(rest =~= word@ + tail);
                assert(is_word(word@)) by {
                    assert forall|i: int| 0 <= i < word@.len() implies !is_space(
                        #[trigger] word@[i],
                    ) by {
                        assert(word@[i] == v@[at + i]);
                    }
                }
                lemma_first_word(word@, tail);
                assert(before.push(word@) + words(tail) =~= before + words(rest));
            }
            out.push(word);
            at = end;
        }
    }
    assert(words(v@.skip(at as int)) =~= Seq::<Seq<char>>::empty());
    assert(texts(out@) + words(v@.skip(at as int)) =~= texts(out@));
    out
}

/// Trimming a text twice is trimming it once.
pub proof fn lemma_trimmed_twice(s: Seq<char>)
    ensures
        trimmed(trimmed(s)) == trimmed(s),
{
    let front = trim_start(s);
    let t = trimmed(s);
    lemma_trim_start(s);
    lemma_trim_end(front);
    if t.len() > 0 {
        assert(t[0] == front[0]);
        assert(!is_space(t[0]));
        assert(!is_space(t.last()));
    }
}

/// Where a character first stands in a text; the length where it does not.
pub open spec fn first_of(s: Seq<char>, c: char) -> int
    decreases s.len(),
{
    if s.len() == 0 || s[0] == c {
        0
    } else {
        1 + first_of(s.skip(1), c)
    }
}

/// A text before and behind the first place of a character.
pub open spec fn split_at_first(s: Seq<char>, c: char) -> Option<(Seq<char>, Seq<char>)> {
    let i = first_of(s, c);
    if i == s.len() {
        None
    } else {
        Some((s.take(i), s.skip(i + 1)))
    }
}

/// Where a character first stands, it stands, and not before.
pub proof fn lemma_first_of(s: Seq<char>, c: char)
    ensures
        0 <= first_of(s, c) <= s.len(),
        first_of(s, c) < s.len() ==> s[first_of(s, c)] == c,
        forall|i: int| 0 <= i < first_of(s, c) ==> #[trigger] s[i] != c,
    decreases s.len(),
{
    if s.len() > 0 && s[0] != c {
        lemma_first_of(s.skip(1), c);
        assert forall|i: int| 0 <= i < first_of(s, c) implies #[trigger] s[i] != c by {
            if i > 0 {
                assert(s.skip(1)[i - 1] == s[i]);
            }
        }
    }
}

/// A place that holds a character, with none before it, is the first.
pub proof fn lemma_first_place(s: Seq<char>, c: char, n: int)
    requires
        0 <= n <= s.len(),
        n < s.len() ==> s[n] == c,
        forall|i: int| 0 <= i < n ==> #[trigger] s[i] != c,
    ensures
        first_of(s, c) == n,
{
    lemma_first_of(s, c);
    let f = first_of(s, c);
    if f < n {
        assert(s[f] == c);
    } else if n < f {
        assert(s[n] != c);
    }
}

/// The view of two texts, where there are any.
pub open spec fn opt_pair(p: Option<(String, String)>) -> Option<(Seq<char>, Seq<char>)> {
    match p {
        Some((a, b)) => Some((a@, b@)),
        None => None,
    }
}

/// Splits a text at the first place of a character, which is left out.
pub fn split_once(s: &str, c: char) -> (r: Option<(String, String)>)
    ensures
        opt_pair(r) == split_at_first(s@, c),
{
    let v = chars_of(s);
    let mut i: usize = 0;
    while i < v.len() && v[i] != c
        invariant
            v@ == s@,
            i <= v@.len(),
            forall|k: int| 0 <= k < i ==> #[trigger] s@[k] != c,
        decreases v@.len() - i,
    {
        i = i + 1;
    }
    proof {
        lemma_first_place(s@, c, i as int);
    }
    if i < v.len() {
        assert(v@.subrange(0, i as int) =~= s@.take(i as int));
        assert(v@.subrange(i + 1, v@.len() as int) =~= s@.skip(i + 1));
        Some((spell(&v, 0, i), spell(&v, i + 1, v.len())))
    } else {
        None
    }
}

/// A letter from A to Z made small; any other character as it is.
pub open spec fn ascii_lower(c: char) -> char {
    if 65 <= c as int <= 90 {
        (c as int + 32) as char
    } else {
        c
    }
}

/// Whether two texts are the same but for the size of letters from A to Z.
pub open spec fn alike(a: Seq<char>, b: Seq<char>) -> bool {
    a.len() == b.len() && forall|i: int|
        0 <= i < a.len() ==> ascii_lower(#[trigger] a[i]) == ascii_lower(b[i])
}

fn make_small(c: char) -> (r: char)
    ensures
        r == ascii_lower(c),
{
    let n: u32 = code_point(c);
    if 65 <= n && n <= 90 {
        (n as u8 + 32) as char
    } else {
        c
    }
}

/// Whether two texts are the same but for the size of letters from A to Z.
pub fn same_letters(a: &str, b: &str) -> (r: bool)
    ensures
        r == alike(a@, b@),
{
    let x = chars_of(a);
    let y = chars_of(b);
    if x.len() != y.len() {
        return false;
    }
    let mut i: usize = 0;
    while i < x.len()
        invariant
            x@ == a@,
            y@ == b@,
            x@.len() == y@.len(),
            i <= x@.len(),
            forall|k: int| 0 <= k < i ==> ascii_lower(#[trigger] x@[k]) == ascii_lower(y@[k]),
        decreases x@.len() - i,
    {
        if make_small(x[i]) != make_small(y[i]) {
            assert(ascii_lower(a@[i as int]) != ascii_lower(b@[i as int]));
            return false;
        }
        i = i + 1;
    }
    true
}

/// The number that decimal digits stand for.
pub open spec fn number(digits: Seq<char>) -> int
    decreases digits.len(),
{
    if digits.len() == 0 {
        0
    } else {
        10 * number(digits.drop_last()) + (digits.last() as int - 48)
    }
}

/// A number in decimal is read back as it was; it is written with digits alone and
/// without a zero before them.
pub proof fn law_decimal_is_read_back(n: nat)
    ensures
        number(decimal(n)) == n,
        decimal(n).len() > 0,
        forall|i: int| 0 <= i < decimal(n).len() ==> '0' <= #[trigger] decimal(n)[i] <= '9',
        n > 0 ==> decimal(n)[0] != '0',
    decreases n,
{
    let d = decimal(n);
    if n >= 10 {
        law_decimal_is_read_back(n / 10);
        assert(d.drop_last() =~= decimal(n / 10));
        assert(d[0] == decimal(n / 10)[0]);
        assert(n == 10 * (n / 10) + n % 10);
    } else {
        assert(d.drop_last() =~= Seq::<char>::empty());
        assert(number(d.drop_last()) == 0);
    }
}

/// Different numbers are written differently.
pub proof fn law_decimals_differ(a: nat, b: nat)
    ensures
        decimal(a) == decimal(b) ==> a == b,
{
    law_decimal_is_read_back(a);
    law_decimal_is_read_back(b);
}

/// Joined parts stand in the whole in their order: what is joined of the first ones
/// is its beginning, and each further one follows behind a separator.
pub proof fn law_joined_keeps_the_order(parts: Seq<Seq<char>>, sep: Seq<char>, next: Seq<char>)
    ensures
        joined(Seq::<Seq<char>>::empty(), sep).len() == 0,
        parts.len() == 0 ==> joined(parts.push(next), sep) == next,
        parts.len() > 0 ==> joined(parts.push(next), sep) == joined(parts, sep) + sep + next,
{
    assert(parts.push(next).drop_last() =~= parts);
}

/// The order of texts is that of their first different characters; a text comes
/// before those that it begins.
pub proof fn law_first_difference_decides(a: Seq<char>, b: Seq<char>, n: int)
    requires
        0 <= n <= a.len(),
        n <= b.len(),
        a.take(n) == b.take(n),
    ensures
        n < a.len() && n < b.len() && (a[n] as int) < (b[n] as int) ==> precedes(a, b)
            && !precedes(b, a),
        n == a.len() && n < b.len() ==> precedes(a, b) && !precedes(b, a),
    decreases n,
{
    if n > 0 {
        assert(a[0] == a.take(n)[0] && b[0] == b.take(n)[0]);
        let c = a.skip(1);
        let d = b.skip(1);
        assert(c.take(n - 1) =~= a.take(n).skip(1));
        assert(d.take(n - 1) =~= b.take(n).skip(1));
        law_first_difference_decides(c, d, n - 1);
        assert(n < a.len() ==> c[n - 1] == a[n]);
        assert(n < b.len() ==> d[n - 1] == b[n]);
    }
}

/// The words of a text hold its characters in their order, all but the white space.
pub proof fn law_words_hold_every_character(s: Seq<char>)
    ensures
        joined(words(s), Seq::empty()) == s.filter(|c: char| !is_space(c)),
        forall|i: int| 0 <= i < words(s).len() ==> is_word(#[trigger] words(s)[i]),
    decreases s.len(),
{
    let keep = |c: char| !is_space(c);
    lemma_words_are_words(s);
    lemma_trim_start(s);
    let t = trim_start(s);
    let lead = s.take(s.len() - t.len());
    assert(s =~= lead + t);
    Seq::filter_distributes_over_add(lead, t, keep);
    lemma_nothing_kept(lead, keep);
    if t.len() == 0 {
        lemma_nothing_kept(t, keep);
        assert(joined(words(s), Seq::empty()) =~= s.filter(keep));
    } else {
        lemma_word_len(t);
        let w = t.take(word_len(t) as int);
        let rest = t.skip(word_len(t) as int);
        assert(t =~= w + rest);
        Seq::filter_distributes_over_add(w, rest, keep);
        lemma_all_kept(w, keep);
        law_words_hold_every_character(rest);
        let v = words(s);
        assert(v =~= seq![w] + words(rest));
        assert(v.skip(1) =~= words(rest));
        if v.len() >= 2 {
            lemma_joined_front(v, Seq::empty());
        } else {
            assert(words(rest) =~= Seq::<Seq<char>>::empty());
            assert(joined(words(rest), Seq::<char>::empty()) =~= Seq::<char>::empty());
        }
        assert(joined(v, Seq::empty()) =~= w + joined(words(rest), Seq::empty()));
    }
}

/// Words are what white space leaves between itself: one that stands at the start of a
/// text, up to white space or the end, is the first word, and white space before a word
/// does not count.
pub proof fn law_words_are_not_cut(w: Seq<char>, rest: Seq<char>, space: char)
    requires
        w.len() > 0,
        forall|i: int| 0 <= i < w.len() ==> !is_space(#[trigger] w[i]),
        rest.len() > 0 ==> is_space(rest[0]),
        is_space(space),
    ensures
        words(w + rest) == seq![w] + words(rest),
        words(seq![space] + rest) == words(rest),
{
    lemma_first_word(w, rest);
    lemma_words_skip_space(seq![space] + rest);
    assert((seq![space] + rest).skip(1) =~= rest);
}

proof fn lemma_nothing_kept(s: Seq<char>, keep: spec_fn(char) -> bool)
    requires
        forall|i: int| 0 <= i < s.len() ==> !keep(#[trigger] s[i]),
    ensures
        s.filter(keep) == Seq::<char>::empty(),
    decreases s.len(),
{
    reveal(Seq::filter);
    if s.len() > 0 {
        assert(!keep(s[s.len() - 1]));
        assert forall|i: int| 0 <= i < s.drop_last().len() implies !keep(
            #[trigger] s.drop_last()[i],
        ) by {
            assert(s.drop_last()[i] == s[i]);
        }
        lemma_nothing_kept(s.drop_last(), keep);
    }
}

proof fn lemma_all_kept(s: Seq<char>, keep: spec_fn(char) -> bool)
    requires
        forall|i: int| 0 <= i < s.len() ==> keep(#[trigger] s[i]),
    ensures
        s.filter(keep) == s,
    decreases s.len(),
{
    reveal(Seq::filter);
    if s.len() > 0 {
        assert(keep(s[s.len() - 1]));
        assert forall|i: int| 0 <= i < s.drop_last().len() implies keep(
            #[trigger] s.drop_last()[i],
        ) by {
            assert(s.drop_last()[i] == s[i]);
        }
        lemma_all_kept(s.drop_last(), keep);
        assert(s.drop_last().push(s.last()) =~= s);
    } else {
        assert(s.filter(keep) =~= s);
    }
}

/// A line ends at its line feed: a text of a line, a line feed and more has that line
/// first, without a carriage return at its end, and then the lines of the rest.
pub proof fn law_lines_end_at_line_feeds(line: Seq<char>, rest: Seq<char>)
    requires
        forall|i: int| 0 <= i < line.len() ==> #[trigger] line[i] != '\n',
    ensures
        lines(line.push('\n') + rest) == seq![
            if line.len() > 0 && line.last() == '\r' {
                line.drop_last()
            } else {
                line
            },
        ] + lines(rest),
        line.len() > 0 ==> lines(line) == seq![line],
{
    let s = line.push('\n') + rest;
    lemma_line_len_is(s, line.len());
    assert(s.take(line.len() as int) =~= line);
    assert(s.skip(line.len() as int + 1) =~= rest);
    lemma_line_len(line);
    if line.len() > 0 && line_len(line) < line.len() {
        assert(line[line_len(line) as int] == '\n');
    }
}

/// A text without white space around it is a piece of the text that neither begins
/// nor ends with white space, with nothing but white space around it.
pub proof fn law_only_white_space_is_trimmed(s: Seq<char>)
    ensures
        exists|from: int, to: int|
            #![trigger s.subrange(from, to)]
            {
                &&& 0 <= from <= to <= s.len()
                &&& trimmed(s) == s.subrange(from, to)
                &&& forall|i: int| 0 <= i < from ==> is_space(#[trigger] s[i])
                &&& forall|i: int| to <= i < s.len() ==> is_space(#[trigger] s[i])
                &&& from < to ==> !is_space(s[from]) && !is_space(s[to - 1])
            },
{
    let rest = trim_start(s);
    lemma_trim_start(s);
    lemma_trim_end(rest);
    let t = trim_end(rest);
    let from = s.len() - rest.len();
    let to = from + t.len();
    assert(t =~= s.subrange(from, to));
    assert forall|i: int| to <= i < s.len() implies is_space(#[trigger] s[i]) by {
        assert(rest[i - from] == s[i]);
    }
    if from < to {
        assert(rest[0] == s[from]);
        assert(t.last() == s[to - 1]);
    }
}

/// A text occurs where it stands between two others.
pub proof fn lemma_occurs_between(a: Seq<char>, b: Seq<char>, c: Seq<char>)
    ensures
        occurs(b, a + b + c),
{
    let s = a + b + c;
    let at = a.len() as int;
    assert(b =~= s.skip(at).subrange(0, b.len() as int));
    assert(b.is_prefix_of(s.skip(at)));
}

/// Whether a text stands in another from a place on, character for character.
pub open spec fn stands_in(needle: Seq<char>, s: Seq<char>, at: int) -> bool {
    0 <= at && at + needle.len() <= s.len() && s.subrange(at, at + needle.len()) == needle
}

/// A text occurs in another exactly if it stands there from some place on.
pub proof fn law_a_text_occurs_where_it_stands(needle: Seq<char>, s: Seq<char>)
    ensures
        occurs(needle, s) <==> exists|at: int| stands_in(needle, s, at),
{
    if occurs(needle, s) {
        let at = choose|i: int| 0 <= i <= s.len() && needle.is_prefix_of(#[trigger] s.skip(i));
        assert(s.skip(at).subrange(0, needle.len() as int) =~= s.subrange(at, at + needle.len()));
        assert(stands_in(needle, s, at));
    }
    if exists|at: int| stands_in(needle, s, at) {
        let at = choose|at: int| stands_in(needle, s, at);
        assert(s.skip(at).subrange(0, needle.len() as int) =~= s.subrange(at, at + needle.len()));
        assert(needle.is_prefix_of(s.skip(at)));
    }
}

/// White space are the tab, the ends of lines and pages, and the spaces of every width,
/// and nothing else; a text is blank if it holds nothing but them.
pub proof fn law_white_space(c: char, s: Seq<char>)
    ensures
        is_space(c) <==> c == '\t' || c == '\n' || c == '\u{b}' || c == '\u{c}' || c == '\r' || c == ' '
            || c == '\u{85}' || c == '\u{a0}' || c == '\u{1680}' || '\u{2000}' <= c <= '\u{200a}' || c
            == '\u{2028}' || c == '\u{2029}' || c == '\u{202f}' || c == '\u{205f}' || c == '\u{3000}',
        is_blank(s.push(c)) <==> is_blank(s) && is_space(c),
        is_blank(Seq::empty()),
{
    let t = s.push(c);
    if is_blank(t) {
        assert(t[s.len() as int] == c);
        assert forall|i: int| 0 <= i < s.len() implies is_space(#[trigger] s[i]) by {
            assert(t[i] == s[i]);
        }
    }
}

/// An integer is written as its digits, with a minus before those of a negative one.
pub proof fn law_a_negative_number_has_a_minus(n: int)
    ensures
        n >= 0 ==> signed_decimal(n) == decimal(n as nat),
        n < 0 ==> signed_decimal(n).len() > 0 && signed_decimal(n)[0] == '-' && signed_decimal(
            n,
        ).skip(1) == decimal((-n) as nat),
{
    reveal_strlit("-");
    if n < 0 {
        assert(signed_decimal(n).skip(1) =~= decimal((-n) as nat));
    }
}

/// A text is split at the first place of a character, which goes; where the character
/// does not stand in it, it is not split.
pub proof fn law_a_text_is_split_at_the_first_place(before: Seq<char>, c: char, behind: Seq<char>)
    requires
        forall|i: int| 0 <= i < before.len() ==> #[trigger] before[i] != c,
    ensures
        split_at_first(before.push(c) + behind, c) == Some((before, behind)),
        split_at_first(before, c) is None,
{
    let s = before.push(c) + behind;
    lemma_first_place(s, c, before.len() as int);
    lemma_first_of(before, c);
    if first_of(before, c) < before.len() {
        assert(before[first_of(before, c)] == c);
    }
    assert(s.take(before.len() as int) =~= before);
    assert(s.skip(before.len() as int + 1) =~= behind);
}

/// Texts are alike if they have as many characters and these are the same, but for the
/// size of letters from A to Z.
pub proof fn law_only_the_size_of_letters_may_differ(a: Seq<char>, b: Seq<char>, i: int)
    ensures
        alike(a, a),
        alike(a, b) ==> alike(b, a) && a.len() == b.len(),
        alike(a, b) && 0 <= i < a.len() ==> a[i] == b[i] || ('A' <= a[i] <= 'Z' && b[i] as int
            == a[i] as int + 32) || ('A' <= b[i] <= 'Z' && a[i] as int == b[i] as int + 32),
{
    if alike(a, b) && 0 <= i < a.len() {
        assert(ascii_lower(a[i]) == ascii_lower(b[i]));
    }
}

/// Sorted texts stand in their order, and none of them twice.
pub proof fn law_sorted_texts_stand_in_order(v: Seq<Seq<char>>, i: int, j: int)
    requires
        sorted(v),
        0 <= i < j < v.len(),
    ensures
        precedes(v[i], v[j]),
        v[i] != v[j],
{
    lemma_precedes_total(v[i], v[j]);
    lemma_precedes_total(v[i], v[i]);
}

} // verus!
