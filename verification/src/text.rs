//! Text primitives over `char` sequences: comparing, trimming, splitting into
//! lines and joining.

use vstd::prelude::*;
use vstd::std_specs::iter::IteratorSpec;

verus! {

broadcast use vstd::string::group_string_axioms;

/// Whether Unicode gives `c` the `White_Space` property.
pub open spec fn white_space(c: char) -> bool {
    ||| '\t' <= c <= '\r'
    ||| c == ' '
    ||| c == '\u{85}'
    ||| c == '\u{a0}'
    ||| c == '\u{1680}'
    ||| '\u{2000}' <= c <= '\u{200a}'
    ||| c == '\u{2028}'
    ||| c == '\u{2029}'
    ||| c == '\u{202f}'
    ||| c == '\u{205f}'
    ||| c == '\u{3000}'
}

/// Calls `char::is_whitespace`, which is documented to return whether the character
/// has the `White_Space` property of the Unicode Character Database.
#[verifier::external_body]
fn is_white_space(c: char) -> (res: bool)
    ensures
        res == white_space(c),
{
    c.is_whitespace()
}

/// Specifies `String::push`: the character is appended at the end.
pub assume_specification[ String::push ](s: &mut String, c: char)
    ensures
        final(s)@ == old(s)@.push(c),
;

/// How many characters at the front of `s` satisfy `drop`.
pub open spec fn lead(s: Seq<char>, drop: spec_fn(char) -> bool) -> nat
    decreases s.len(),
{
    if s.len() > 0 && drop(s[0]) {
        1 + lead(s.drop_first(), drop)
    } else {
        0
    }
}

/// How many characters at the back of `s` satisfy `drop`.
pub open spec fn trail(s: Seq<char>, drop: spec_fn(char) -> bool) -> nat
    decreases s.len(),
{
    if s.len() > 0 && drop(s.last()) {
        1 + trail(s.drop_last(), drop)
    } else {
        0
    }
}

/// `s` without the characters at either end that satisfy `drop`.
pub open spec fn trim_by(s: Seq<char>, drop: spec_fn(char) -> bool) -> Seq<char> {
    let rest = s.skip(lead(s, drop) as int);
    rest.take(rest.len() - trail(rest, drop))
}

/// `s` without the white space at either end.
pub open spec fn trim_spec(s: Seq<char>) -> Seq<char> {
    trim_by(s, |c: char| white_space(c))
}

/// The position of the first line feed of `s`, or its length when it has none.
pub open spec fn line_end(s: Seq<char>) -> int
    decreases s.len(),
{
    if s.len() == 0 || s[0] == '\n' {
        0
    } else {
        1 + line_end(s.drop_first())
    }
}

/// A line without the carriage return that ends it, if one does.
pub open spec fn strip_cr(line: Seq<char>) -> Seq<char> {
    if line.len() > 0 && line.last() == '\r' {
        line.drop_last()
    } else {
        line
    }
}

/// The lines of a text. A line ends at a line feed or at a carriage return
/// followed by a line feed; neither belongs to the line. The last line needs
/// no terminator, and a terminator at the very end opens no further line.
pub open spec fn lines_spec(s: Seq<char>) -> Seq<Seq<char>>
    decreases s.len(),
    via lines_spec_decreases
{
    if s.len() == 0 {
        Seq::empty()
    } else if line_end(s) >= s.len() {
        seq![s]
    } else {
        seq![strip_cr(s.take(line_end(s)))] + lines_spec(s.skip(line_end(s) + 1))
    }
}

#[via_fn]
proof fn lines_spec_decreases(s: Seq<char>) {
    lemma_line_end(s);
}

/// `parts` written one after the other with `sep` between neighbours.
pub open spec fn join_spec(parts: Seq<Seq<char>>, sep: Seq<char>) -> Seq<char>
    decreases parts.len(),
{
    if parts.len() == 0 {
        Seq::empty()
    } else if parts.len() == 1 {
        parts[0]
    } else {
        join_spec(parts.drop_last(), sep) + sep + parts.last()
    }
}

/// The views of a sequence of strings.
pub open spec fn texts(v: Seq<String>) -> Seq<Seq<char>> {
    Seq::new(v.len(), |i: int| v[i]@)
}

/// The view of an optional string.
pub open spec fn opt_text(o: Option<String>) -> Option<Seq<char>> {
    match o {
        Some(s) => Some(s@),
        None => None,
    }
}

proof fn lemma_lead(s: Seq<char>, drop: spec_fn(char) -> bool)
    ensures
        lead(s, drop) <= s.len(),
        forall|i: int| 0 <= i < lead(s, drop) ==> drop(#[trigger] s[i]),
        lead(s, drop) < s.len() ==> !drop(s[lead(s, drop) as int]),
    decreases s.len(),
{
    if s.len() > 0 && drop(s[0]) {
        let rest = s.drop_first();
        lemma_lead(rest, drop);
        assert forall|i: int| 0 <= i < lead(s, drop) implies drop(#[trigger] s[i]) by {
            if i > 0 {
                assert(rest[i - 1] == s[i]);
            }
        }
        if lead(s, drop) < s.len() {
            assert(rest[lead(rest, drop) as int] == s[lead(s, drop) as int]);
        }
    }
}

proof fn lemma_trail(s: Seq<char>, drop: spec_fn(char) -> bool)
    ensures
        trail(s, drop) <= s.len(),
        forall|i: int| s.len() - trail(s, drop) <= i < s.len() ==> drop(#[trigger] s[i]),
        trail(s, drop) < s.len() ==> !drop(s[s.len() - trail(s, drop) - 1]),
    decreases s.len(),
{
    if s.len() > 0 && drop(s.last()) {
        let rest = s.drop_last();
        lemma_trail(rest, drop);
        assert forall|i: int| s.len() - trail(s, drop) <= i < s.len() implies drop(
            #[trigger] s[i],
        ) by {
            if i < s.len() - 1 {
                assert(rest[i] == s[i]);
            }
        }
    }
}

/// Trimming keeps one contiguous part of the text and drops nothing but
/// characters that satisfy `drop`; what is kept neither begins nor ends with
/// such a character.
pub proof fn lemma_trim_by(s: Seq<char>, drop: spec_fn(char) -> bool)
    ensures
        exists|i: int, j: int|
            {
                &&& 0 <= i <= j <= s.len()
                &&& trim_by(s, drop) == #[trigger] s.subrange(i, j)
                &&& forall|k: int| (0 <= k < i || j <= k < s.len()) ==> drop(#[trigger] s[k])
            },
        trim_by(s, drop).len() > 0 ==> !drop(trim_by(s, drop)[0]) && !drop(
            trim_by(s, drop).last(),
        ),
{
    let i = lead(s, drop) as int;
    lemma_lead(s, drop);
    let rest = s.skip(i);
    lemma_trail(rest, drop);
    let j = s.len() - trail(rest, drop);
    assert(trim_by(s, drop) =~= s.subrange(i, j));
    assert forall|k: int| (0 <= k < i || j <= k < s.len()) implies drop(#[trigger] s[k]) by {
        if j <= k {
            assert(rest[k - i] == s[k]);
        }
    }
    if trim_by(s, drop).len() > 0 {
        assert(trim_by(s, drop)[0] == s[i]);
        assert(trim_by(s, drop).last() == rest[rest.len() - trail(rest, drop) - 1]);
    }
}

/// A text that neither begins nor ends with a character to drop is kept whole.
pub proof fn lemma_trim_nothing(s: Seq<char>, drop: spec_fn(char) -> bool)
    requires
        s.len() > 0 ==> !drop(s[0]) && !drop(s.last()),
    ensures
        trim_by(s, drop) == s,
{
    assert(s.skip(0) =~= s);
    assert(s.take(s.len() as int) =~= s);
}

/// What is trimmed already is left as it is.
pub proof fn lemma_trim_twice(s: Seq<char>, drop: spec_fn(char) -> bool)
    ensures
        trim_by(trim_by(s, drop), drop) == trim_by(s, drop),
{
    lemma_trim_by(s, drop);
    lemma_trim_nothing(trim_by(s, drop), drop);
}

/// Characters to drop around a text make no difference to what is left of it.
pub proof fn lemma_trim_around(
    a: Seq<char>,
    s: Seq<char>,
    b: Seq<char>,
    drop: spec_fn(char) -> bool,
)
    requires
        forall|i: int| 0 <= i < a.len() ==> drop(#[trigger] a[i]),
        forall|i: int| 0 <= i < b.len() ==> drop(#[trigger] b[i]),
    ensures
        trim_by(a + s + b, drop) == trim_by(s, drop),
    decreases a.len() + b.len(),
{
    if a.len() > 0 {
        let whole = a + s + b;
        let rest = a.drop_first();
        assert forall|i: int| 0 <= i < rest.len() implies drop(#[trigger] rest[i]) by {
            assert(rest[i] == a[i + 1]);
        }
        lemma_trim_around(rest, s, b, drop);
        assert(whole[0] == a[0]);
        assert(whole.drop_first() =~= rest + s + b);
        lemma_lead(rest + s + b, drop);
        assert(whole.skip(lead(whole, drop) as int) =~= (rest + s + b).skip(
            lead(rest + s + b, drop) as int,
        ));
    } else if b.len() > 0 {
        let whole = a + s + b;
        let rest = b.drop_last();
        assert forall|i: int| 0 <= i < rest.len() implies drop(#[trigger] rest[i]) by {
            assert(rest[i] == b[i]);
        }
        lemma_trim_around(a, s, rest, drop);
        let shorter = a + s + rest;
        assert(whole =~= shorter.push(b.last()));
        assert(drop(b[b.len() - 1]));
        lemma_lead_push(shorter, b.last(), drop);
        lemma_lead(shorter, drop);
        let n = lead(shorter, drop) as int;
        if n < shorter.len() {
            let tail = whole.skip(n);
            assert(tail =~= shorter.skip(n).push(b.last()));
            assert(tail.drop_last() =~= shorter.skip(n));
            lemma_trail(shorter.skip(n), drop);
            assert(tail.take(tail.len() - trail(tail, drop)) =~= shorter.skip(n).take(
                shorter.skip(n).len() - trail(shorter.skip(n), drop),
            ));
        } else {
            assert(trim_by(whole, drop) =~= Seq::<char>::empty());
            assert(trim_by(shorter, drop) =~= Seq::<char>::empty());
        }
    } else {
        assert(a + s + b =~= s);
    }
}

/// One more character to drop at the end is counted only where all before it are.
proof fn lemma_lead_push(s: Seq<char>, c: char, drop: spec_fn(char) -> bool)
    requires
        drop(c),
    ensures
        lead(s.push(c), drop) == if lead(s, drop) < s.len() {
            lead(s, drop)
        } else {
            s.len() + 1
        },
    decreases s.len(),
{
    let longer = s.push(c);
    lemma_lead(s, drop);
    if s.len() == 0 {
        assert(lead(longer.drop_first(), drop) == 0);
    } else if drop(s[0]) {
        lemma_lead_push(s.drop_first(), c, drop);
        assert(longer.drop_first() =~= s.drop_first().push(c));
    }
}

proof fn lemma_line_end(s: Seq<char>)
    ensures
        0 <= line_end(s) <= s.len(),
        forall|i: int| 0 <= i < line_end(s) ==> #[trigger] s[i] != '\n',
        line_end(s) < s.len() ==> s[line_end(s)] == '\n',
    decreases s.len(),
{
    if s.len() > 0 && s[0] != '\n' {
        let rest = s.drop_first();
        lemma_line_end(rest);
        assert forall|i: int| 0 <= i < line_end(s) implies #[trigger] s[i] != '\n' by {
            if i > 0 {
                assert(rest[i - 1] == s[i]);
            }
        }
        if line_end(s) < s.len() {
            assert(rest[line_end(rest)] == s[line_end(s)]);
        }
    }
}

/// Where the first line feed stands at `n`, that is where the first line ends.
proof fn lemma_line_end_at(s: Seq<char>, n: int)
    requires
        0 <= n <= s.len(),
        forall|i: int| 0 <= i < n ==> #[trigger] s[i] != '\n',
        n < s.len() ==> s[n] == '\n',
    ensures
        line_end(s) == n,
{
    lemma_line_end(s);
    if line_end(s) < n {
        assert(s[line_end(s)] == '\n');
    } else if line_end(s) > n {
        assert(s[n] != '\n');
    }
}

/// Whether two strings hold the same characters.
pub fn same_text(a: &str, b: &str) -> (res: bool)
    ensures
        res == (a@ == b@),
{
    let mut xs = a.chars();
    let mut ys = b.chars();
    let ghost mut n: int = 0;
    loop
        invariant
            0 <= n <= a@.len(),
            n <= b@.len(),
            xs.remaining() == a@.skip(n),
            ys.remaining() == b@.skip(n),
            a@.take(n) == b@.take(n),
        decreases a@.len() - n,
    {
        match (xs.next(), ys.next()) {
            (Some(x), Some(y)) => {
                if x != y {
                    assert(a@[n] == x && b@[n] == y);
                    return false;
                }
                proof {
                    assert(a@[n] == x && b@[n] == y);
                    assert(a@.take(n + 1) =~= a@.take(n).push(x));
                    assert(b@.take(n + 1) =~= b@.take(n).push(y));
                    assert(a@.skip(n).drop_first() =~= a@.skip(n + 1));
                    assert(b@.skip(n).drop_first() =~= b@.skip(n + 1));
                    n = n + 1;
                }
            },
            (None, None) => {
                assert(a@.take(n) =~= a@);
                assert(b@.take(n) =~= b@);
                return true;
            },
            _ => {
                return false;
            },
        }
    }
}

/// Whether `s` begins with `prefix`.
pub fn begins_with(s: &str, prefix: &str) -> (res: bool)
    ensures
        res == prefix@.is_prefix_of(s@),
{
    let mut xs = s.chars();
    let mut ys = prefix.chars();
    let ghost mut n: int = 0;
    loop
        invariant
            0 <= n <= s@.len(),
            n <= prefix@.len(),
            xs.remaining() == s@.skip(n),
            ys.remaining() == prefix@.skip(n),
            s@.take(n) == prefix@.take(n),
        decreases s@.len() - n,
    {
        match ys.next() {
            None => {
                assert(prefix@.take(n) =~= prefix@);
                assert(s@.take(n) =~= s@.subrange(0, prefix@.len() as int));
                return true;
            },
            Some(y) => {
                assert(prefix@[n] == y);
                match xs.next() {
                    None => {
                        return false;
                    },
                    Some(x) => {
                        assert(s@[n] == x);
                        if x != y {
                            proof {
                                if prefix@.is_prefix_of(s@) {
                                    assert(s@.subrange(0, prefix@.len() as int)[n] == s@[n]);
                                }
                            }
                            return false;
                        }
                        proof {
                            assert(s@.take(n + 1) =~= s@.take(n).push(x));
                            assert(prefix@.take(n + 1) =~= prefix@.take(n).push(y));
                            assert(s@.skip(n).drop_first() =~= s@.skip(n + 1));
                            assert(prefix@.skip(n).drop_first() =~= prefix@.skip(n + 1));
                            n = n + 1;
                        }
                    },
                }
            },
        }
    }
}

/// The characters of a string, in order.
pub fn to_chars(s: &str) -> (res: Vec<char>)
    ensures
        res@ == s@,
{
    let mut res: Vec<char> = Vec::new();
    for c in it: s.chars()
        invariant
            res@ == it.seq().take(it.index()),
            it.seq() == s@,
    {
        res.push(c);
    }
    res
}

/// The string made of `chars[from..to]`.
pub fn from_chars(chars: &Vec<char>, from: usize, to: usize) -> (res: String)
    requires
        from <= to <= chars@.len(),
    ensures
        res@ == chars@.subrange(from as int, to as int),
{
    let mut res = String::new();
    let mut i: usize = from;
    while i < to
        invariant
            from <= i <= to <= chars@.len(),
            res@ == chars@.subrange(from as int, i as int),
        decreases to - i,
    {
        res.push(chars[i]);
        i += 1;
        assert(res@ =~= chars@.subrange(from as int, i as int));
    }
    res
}

/// The bounds of what is left of `chars` once the flagged characters at either
/// end are dropped; `cut[i]` says whether `chars[i]` may be dropped.
pub(crate) fn trim_bounds(chars: &Vec<char>, cut: &Vec<bool>, Ghost(drop): Ghost<
    spec_fn(char) -> bool,
>) -> (res: (usize, usize))
    requires
        cut@.len() == chars@.len(),
        forall|i: int| 0 <= i < chars@.len() ==> #[trigger] cut@[i] == drop(chars@[i]),
    ensures
        res.0 <= res.1 <= chars@.len(),
        trim_by(chars@, drop) == chars@.subrange(res.0 as int, res.1 as int),
{
    let mut lo: usize = 0;
    while lo < chars.len() && cut[lo]
        invariant
            lo <= chars@.len(),
            cut@.len() == chars@.len(),
            forall|i: int| 0 <= i < chars@.len() ==> #[trigger] cut@[i] == drop(chars@[i]),
            forall|i: int| 0 <= i < lo ==> drop(#[trigger] chars@[i]),
        decreases chars@.len() - lo,
    {
        lo += 1;
    }
    let mut hi: usize = chars.len();
    while hi > lo && cut[hi - 1]
        invariant
            lo <= hi <= chars@.len(),
            cut@.len() == chars@.len(),
            forall|i: int| 0 <= i < chars@.len() ==> #[trigger] cut@[i] == drop(chars@[i]),
            forall|i: int| hi <= i < chars@.len() ==> drop(#[trigger] chars@[i]),
        decreases hi,
    {
        hi -= 1;
    }
    proof {
        let s = chars@;
        lemma_lead(s, drop);
        if lo < lead(s, drop) {
            assert(drop(s[lo as int]));
            assert(cut@[lo as int]);
        } else if lead(s, drop) < lo {
            assert(drop(s[lead(s, drop) as int]));
        }
        let rest = s.skip(lo as int);
        lemma_trail(rest, drop);
        let t = trail(rest, drop);
        if hi > s.len() - t {
            assert(rest[hi - 1 - lo] == s[hi - 1]);
            assert(cut@[hi - 1]);
        } else if hi < s.len() - t {
            assert(rest[rest.len() - t - 1] == s[s.len() - t - 1]);
        }
        assert(trim_by(s, drop) =~= s.subrange(lo as int, hi as int));
    }
    (lo, hi)
}

/// The bounds of `chars` without the white space at either end.
pub fn trim_white(chars: &Vec<char>) -> (res: (usize, usize))
    ensures
        res.0 <= res.1 <= chars@.len(),
        trim_spec(chars@) == chars@.subrange(res.0 as int, res.1 as int),
{
    let mut cut: Vec<bool> = Vec::new();
    let mut i: usize = 0;
    while i < chars.len()
        invariant
            i <= chars@.len(),
            cut@.len() == i,
            forall|k: int| 0 <= k < i ==> #[trigger] cut@[k] == white_space(chars@[k]),
        decreases chars@.len() - i,
    {
        cut.push(is_white_space(chars[i]));
        i += 1;
    }
    trim_bounds(chars, &cut, Ghost(|c: char| white_space(c)))
}

/// Whether nothing but white space is in `s`.
pub fn is_blank(s: &str) -> (res: bool)
    ensures
        res == (trim_spec(s@).len() == 0),
{
    let chars = to_chars(s);
    let (lo, hi) = trim_white(&chars);
    lo == hi
}

/// Splits a text into its lines.
pub fn split_lines(source: &str) -> (res: Vec<String>)
    ensures
        texts(res@) == lines_spec(source@),
{
    let mut res: Vec<String> = Vec::new();
    let mut cur: Vec<char> = Vec::new();
    let mut chars = source.chars();
    let ghost mut n: int = 0;
    assert(cur@ + chars.remaining() =~= source@);
    assert(texts(res@) + lines_spec(source@) =~= lines_spec(source@));
    loop
        invariant
            lines_spec(source@) == texts(res@) + lines_spec(cur@ + chars.remaining()),
            forall|i: int| 0 <= i < cur@.len() ==> #[trigger] cur@[i] != '\n',
            0 <= n <= source@.len(),
            chars.remaining() == source@.skip(n),
        decreases source@.len() - n,
    {
        let ghost rest = chars.remaining();
        let ghost whole = cur@ + rest;
        match chars.next() {
            Some(c) => {
                proof {
                    assert(source@.skip(n).drop_first() =~= source@.skip(n + 1));
                    n = n + 1;
                }
                if c == '\n' {
                    let ghost before = cur@;
                    proof {
                        lemma_line_end_at(whole, cur@.len() as int);
                        assert(whole.take(cur@.len() as int) =~= cur@);
                        assert(whole.skip(cur@.len() as int + 1) =~= chars.remaining());
                    }
                    let len = cur.len();
                    let line = if len > 0 && cur[len - 1] == '\r' {
                        assert(cur@.subrange(0, len - 1) =~= cur@.drop_last());
                        from_chars(&cur, 0, len - 1)
                    } else {
                        assert(cur@.subrange(0, len as int) =~= cur@);
                        from_chars(&cur, 0, len)
                    };
                    let ghost done = res@;
                    res.push(line);
                    cur = Vec::new();
                    proof {
                        assert(line@ == strip_cr(before));
                        assert(cur@ + chars.remaining() =~= chars.remaining());
                        assert(texts(res@) =~= texts(done).push(strip_cr(before)));
                        assert(texts(res@) + lines_spec(cur@ + chars.remaining()) =~= texts(done)
                            + lines_spec(whole));
                    }
                } else {
                    cur.push(c);
                    proof {
                        assert(cur@ + chars.remaining() =~= whole);
                    }
                }
            },
            None => {
                assert(whole =~= cur@);
                if cur.len() > 0 {
                    let len = cur.len();
                    let ghost done = res@;
                    proof {
                        lemma_line_end_at(whole, cur@.len() as int);
                        assert(cur@.subrange(0, len as int) =~= cur@);
                    }
                    res.push(from_chars(&cur, 0, len));
                    assert(texts(res@) =~= texts(done) + lines_spec(whole));
                }
                assert(texts(res@) =~= lines_spec(source@));
                return res;
            },
        }
    }
}

/// `parts[from..to]` with `sep` between neighbours.
pub fn join(parts: &Vec<String>, from: usize, to: usize, sep: &str) -> (res: String)
    requires
        from <= to <= parts@.len(),
    ensures
        res@ == join_spec(texts(parts@).subrange(from as int, to as int), sep@),
{
    let mut res = String::new();
    let mut i: usize = from;
    let ghost all = texts(parts@);
    while i < to
        invariant
            from <= i <= to <= parts@.len(),
            all == texts(parts@),
            res@ == join_spec(all.subrange(from as int, i as int), sep@),
        decreases to - i,
    {
        let ghost done = all.subrange(from as int, i as int);
        if i > from {
            res.append(sep);
        }
        res.append(parts[i].as_str());
        i += 1;
        proof {
            let now = all.subrange(from as int, i as int);
            assert(now.drop_last() =~= done);
            assert(now.last() == parts@[i - 1]@);
            if i == from + 1 {
                assert(res@ =~= join_spec(now, sep@));
            }
        }
    }
    res
}

/// Trimming is fixed by what is dropped and what is kept: where everything before `i`
/// and from `j` on may be dropped, and what stands between neither begins nor ends with
/// a character to drop, that is what is left.
pub proof fn law_trim(s: Seq<char>, drop: spec_fn(char) -> bool, i: int, j: int)
    requires
        0 <= i <= j <= s.len(),
        forall|k: int| (0 <= k < i || j <= k < s.len()) ==> drop(#[trigger] s[k]),
        i < j ==> !drop(s[i]) && !drop(s[j - 1]),
    ensures
        trim_by(s, drop) == s.subrange(i, j),
{
    let front = s.subrange(0, i);
    let middle = s.subrange(i, j);
    let back = s.subrange(j, s.len() as int);
    assert(s =~= front + middle + back);
    assert forall|k: int| 0 <= k < front.len() implies drop(#[trigger] front[k]) by {
        assert(front[k] == s[k]);
    }
    assert forall|k: int| 0 <= k < back.len() implies drop(#[trigger] back[k]) by {
        assert(back[k] == s[j + k]);
    }
    lemma_trim_around(front, middle, back, drop);
    lemma_trim_nothing(middle, drop);
}

/// Nothing is left of a text exactly where it is made of white space alone.
pub proof fn law_blank(s: Seq<char>)
    ensures
        trim_spec(s).len() == 0 <==> forall|i: int|
            0 <= i < s.len() ==> white_space(#[trigger] s[i]),
{
    let drop = |c: char| white_space(c);
    lemma_trim_by(s, drop);
    let (i, j) = choose|i: int, j: int|
        {
            &&& 0 <= i <= j <= s.len()
            &&& trim_by(s, drop) == #[trigger] s.subrange(i, j)
            &&& forall|k: int| (0 <= k < i || j <= k < s.len()) ==> drop(#[trigger] s[k])
        };
    if trim_spec(s).len() == 0 {
        assert forall|k: int| 0 <= k < s.len() implies white_space(#[trigger] s[k]) by {
            assert(drop(s[k]));
        }
    } else {
        assert(trim_spec(s)[0] == s[i]);
        assert(!drop(s[i]));
    }
}

/// A text without a line feed is one line, whatever else is in it; an empty text has
/// no line.
pub proof fn law_one_line(s: Seq<char>)
    requires
        forall|i: int| 0 <= i < s.len() ==> #[trigger] s[i] != '\n',
    ensures
        s.len() == 0 ==> lines_spec(s) == Seq::<Seq<char>>::empty(),
        s.len() > 0 ==> lines_spec(s) == seq![s],
{
    lemma_line_end_at(s, s.len() as int);
}

/// A line feed ends a line: before it stands that line, but for a carriage return that
/// ends it too, and after it the lines of the rest.
pub proof fn law_line_feed_ends_a_line(line: Seq<char>, rest: Seq<char>)
    requires
        forall|i: int| 0 <= i < line.len() ==> #[trigger] line[i] != '\n',
    ensures
        lines_spec(line + seq!['\n'] + rest) == seq![
            if line.len() > 0 && line.last() == '\r' {
                line.drop_last()
            } else {
                line
            },
        ] + lines_spec(rest),
{
    let s = line + seq!['\n'] + rest;
    let n = line.len() as int;
    assert forall|i: int| 0 <= i < n implies #[trigger] s[i] != '\n' by {
        assert(s[i] == line[i]);
    }
    lemma_line_end_at(s, n);
    assert(s.take(n) =~= line);
    assert(s.skip(n + 1) =~= rest);
}

/// Joined texts stand one after the other with the separator between them, and with
/// nothing else.
pub proof fn law_join(parts: Seq<Seq<char>>, last: Seq<char>, sep: Seq<char>)
    ensures
        join_spec(Seq::<Seq<char>>::empty(), sep) == Seq::<char>::empty(),
        join_spec(seq![last], sep) == last,
        parts.len() > 0 ==> join_spec(parts.push(last), sep) == join_spec(parts, sep) + sep + last,
{
    assert(parts.push(last).drop_last() =~= parts);
}

} // verus!
