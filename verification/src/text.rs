//! Text as sequences: cutting at a separator, joining, trimming, searching and
//! ordering. The functions here work on the characters of a string and give
//! their results as parts of the string they were given.

use vstd::prelude::*;
use vstd::string::*;

verus! {

/// The pieces of `s` between occurrences of `sep`. There is always at least
/// one piece; a separator at either end gives an empty piece there.
pub open spec fn split<T>(s: Seq<T>, sep: T) -> Seq<Seq<T>>
    decreases s.len(),
{
    if s.len() == 0 {
        seq![Seq::empty()]
    } else {
        let before = split(s.drop_last(), sep);
        if s.last() == sep {
            before.push(Seq::empty())
        } else {
            before.drop_last().push(before.last().push(s.last()))
        }
    }
}

/// The parts written one after another with `sep` between neighbours.
pub open spec fn join<T>(parts: Seq<Seq<T>>, sep: T) -> Seq<T>
    decreases parts.len(),
{
    if parts.len() == 0 {
        Seq::empty()
    } else if parts.len() == 1 {
        parts[0]
    } else {
        join(parts.drop_last(), sep).push(sep) + parts.last()
    }
}

/// The parts written one after another with nothing between them.
pub open spec fn concat<T>(parts: Seq<Seq<T>>) -> Seq<T>
    decreases parts.len(),
{
    if parts.len() == 0 {
        Seq::empty()
    } else {
        concat(parts.drop_last()) + parts.last()
    }
}

/// Cutting at a separator and joining with it gives the text back, and no
/// piece holds the separator. Together the two facts fix the pieces.
pub proof fn lemma_split_join<T>(s: Seq<T>, sep: T)
    ensures
        join(split(s, sep), sep) == s,
        forall|k: int| 0 <= k < split(s, sep).len() ==> !(#[trigger] split(s, sep)[k]).contains(sep),
    decreases s.len(),
{
    let pieces = split(s, sep);
    if s.len() > 0 {
        let before = split(s.drop_last(), sep);
        lemma_split_join(s.drop_last(), sep);
        assert(s =~= s.drop_last().push(s.last()));
        if s.last() == sep {
            assert(pieces.drop_last() =~= before);
        } else {
            assert(pieces.last() == before.last().push(s.last()));
            assert(pieces.drop_last() =~= before.drop_last());
        }
    }
}

/// The test for anything but `sep`.
pub open spec fn is_not<T>(sep: T) -> spec_fn(T) -> bool {
    |x: T| x != sep
}

/// `s` without the occurrences of `sep`.
pub open spec fn without<T>(s: Seq<T>, sep: T) -> Seq<T> {
    s.filter(is_not(sep))
}

/// Writing the pieces one after another leaves out exactly the separators.
pub proof fn lemma_split_concat<T>(s: Seq<T>, sep: T)
    ensures
        concat(split(s, sep)) == without(s, sep),
    decreases s.len(),
{
    let keep = is_not(sep);
    let pieces = split(s, sep);
    if s.len() == 0 {
        assert(concat(pieces.drop_last()) =~= Seq::<T>::empty());
    } else {
        let before = split(s.drop_last(), sep);
        lemma_split_concat(s.drop_last(), sep);
        assert(s =~= s.drop_last().push(s.last()));
        Seq::lemma_filter_push(s.drop_last(), s.last(), keep);
        if s.last() == sep {
            assert(pieces.drop_last() =~= before);
        } else {
            assert(pieces.drop_last() =~= before.drop_last());
        }
    }
}

/// What stands before the last separator of `s`: nothing if there is no
/// separator.
pub open spec fn before_last<T>(s: Seq<T>, sep: T) -> Seq<T> {
    join(split(s, sep).drop_last(), sep)
}

/// What stands before the last separator, told from the end of the text.
pub proof fn lemma_before_last<T>(s: Seq<T>, sep: T)
    ensures
        s.len() == 0 ==> before_last(s, sep) == Seq::<T>::empty(),
        s.len() > 0 && s.last() == sep ==> before_last(s, sep) == s.drop_last(),
        s.len() > 0 && s.last() != sep ==> before_last(s, sep) == before_last(s.drop_last(), sep),
{
    if s.len() > 0 {
        let before = split(s.drop_last(), sep);
        lemma_split_join(s.drop_last(), sep);
        if s.last() == sep {
            assert(split(s, sep).drop_last() =~= before);
        } else {
            assert(split(s, sep).drop_last() =~= before.drop_last());
        }
    }
}

/// The characters of a string, in order.
pub fn chars_of(s: &str) -> (chars: Vec<char>)
    ensures
        chars@ == s@,
{
    let mut chars: Vec<char> = Vec::new();
    for c in it: s.chars()
        invariant
            chars@ == it.seq().take(it.index() as int),
            it.seq() == s@,
    {
        chars.push(c);
    }
    chars
}

/// The part of a string from character `from` up to, not including, `to`.
pub fn part(s: &str, from: usize, to: usize) -> (piece: String)
    requires
        from <= to <= s@.len(),
    ensures
        piece@ == s@.subrange(from as int, to as int),
{
    s.substring_char(from, to).to_owned()
}

/// Whether every pair of bounds is in order and ends within `len`.
pub open spec fn within(bounds: Seq<(usize, usize)>, len: int) -> bool {
    forall|k: int| 0 <= k < bounds.len() ==> (#[trigger] bounds[k]).0 <= bounds[k].1 <= len
}

/// The parts of `s` that the pairs of bounds mark out.
pub open spec fn cut(s: Seq<char>, bounds: Seq<(usize, usize)>) -> Seq<Seq<char>> {
    Seq::new(bounds.len(), |k: int| s.subrange(bounds[k].0 as int, bounds[k].1 as int))
}

/// Where the pieces of `chars[from..to]` between occurrences of `sep` begin
/// and end.
pub fn split_bounds(chars: &Vec<char>, from: usize, to: usize, sep: char) -> (bounds: Vec<
    (usize, usize),
>)
    requires
        from <= to <= chars@.len(),
    ensures
        within(bounds@, to as int),
        forall|k: int| 0 <= k < bounds@.len() ==> from <= (#[trigger] bounds@[k]).0,
        cut(chars@, bounds@) == split(chars@.subrange(from as int, to as int), sep),
{
    let mut bounds: Vec<(usize, usize)> = Vec::new();
    let mut start: usize = from;
    let mut i: usize = from;
    assert(cut(chars@, bounds@).push(chars@.subrange(from as int, from as int)) =~~= split(
        chars@.subrange(from as int, from as int),
        sep,
    ));
    while i < to
        invariant
            from <= start <= i <= to <= chars@.len(),
            within(bounds@, i as int),
            forall|k: int| 0 <= k < bounds@.len() ==> from <= (#[trigger] bounds@[k]).0,
            cut(chars@, bounds@).push(chars@.subrange(start as int, i as int)) == split(
                chars@.subrange(from as int, i as int),
                sep,
            ),
        decreases to - i,
    {
        let ghost before = split(chars@.subrange(from as int, i as int), sep);
        assert(chars@.subrange(from as int, i + 1).drop_last() =~= chars@.subrange(
            from as int,
            i as int,
        ));
        if chars[i] == sep {
            bounds.push((start, i));
            start = i + 1;
            assert(chars@.subrange(start as int, i + 1) =~= Seq::<char>::empty());
        } else {
            assert(chars@.subrange(start as int, i + 1) =~= before.last().push(chars@[i as int]));
        }
        i += 1;
    }
    bounds.push((start, i));
    bounds
}

/// Whether a character is white space as Unicode defines it.
pub open spec fn is_space(c: char) -> bool {
    let u = c as u32;
    ||| 0x09 <= u <= 0x0D
    ||| u == 0x20
    ||| u == 0x85
    ||| u == 0xA0
    ||| u == 0x1680
    ||| 0x2000 <= u <= 0x200A
    ||| u == 0x2028
    ||| u == 0x2029
    ||| u == 0x202F
    ||| u == 0x205F
    ||| u == 0x3000
}

/// The kinds of character that are taken off the ends of a piece of text.
#[derive(Debug, Clone, Copy, PartialEq, Eq, Structural)]
pub enum CharClass {
    Whitespace,
    Quote,
}

impl CharClass {
    /// Whether `c` belongs to the class.
    pub open spec fn holds(self, c: char) -> bool {
        match self {
            CharClass::Whitespace => is_space(c),
            CharClass::Quote => c == '\'',
        }
    }

    /// Tests whether `c` belongs to the class.
    pub fn test(self, c: char) -> (r: bool)
        ensures
            r == self.holds(c),
    {
        match self {
            CharClass::Whitespace => {
                let u: u32 = c as u32;
                (0x09 <= u && u <= 0x0D) || u == 0x20 || u == 0x85 || u == 0xA0 || u == 0x1680 || (
                0x2000 <= u && u <= 0x200A) || u == 0x2028 || u == 0x2029 || u == 0x202F || u
                    == 0x205F || u == 0x3000
            },
            CharClass::Quote => c == '\'',
        }
    }
}

/// `s` without the characters of the class at its beginning.
pub open spec fn trim_start(s: Seq<char>, class: CharClass) -> Seq<char>
    decreases s.len(),
{
    if s.len() > 0 && class.holds(s[0]) {
        trim_start(s.drop_first(), class)
    } else {
        s
    }
}

/// `s` without the characters of the class at its end.
pub open spec fn trim_end(s: Seq<char>, class: CharClass) -> Seq<char>
    decreases s.len(),
{
    if s.len() > 0 && class.holds(s.last()) {
        trim_end(s.drop_last(), class)
    } else {
        s
    }
}

/// `s` without the characters of the class at either end.
pub open spec fn trim(s: Seq<char>, class: CharClass) -> Seq<char> {
    trim_end(trim_start(s, class), class)
}

/// What trimming leaves is a part of the text that neither begins nor ends
/// with a character of the class, and all that was cut away is of the class.
pub proof fn lemma_trim(s: Seq<char>, class: CharClass) -> (bounds: (int, int))
    ensures
        0 <= bounds.0 <= bounds.1 <= s.len(),
        trim(s, class) == s.subrange(bounds.0, bounds.1),
        forall|i: int| 0 <= i < bounds.0 ==> class.holds(#[trigger] s[i]),
        forall|i: int| bounds.1 <= i < s.len() ==> class.holds(#[trigger] s[i]),
        bounds.0 < bounds.1 ==> !class.holds(s[bounds.0]) && !class.holds(s[bounds.1 - 1]),
{
    let a = lemma_trim_start(s, class);
    let rest = s.subrange(a, s.len() as int);
    let b = lemma_trim_end(rest, class);
    assert forall|i: int| a + b <= i < s.len() implies class.holds(#[trigger] s[i]) by {
        assert(rest[i - a] == s[i]);
    }
    (a, a + b)
}

proof fn lemma_trim_start(s: Seq<char>, class: CharClass) -> (from: int)
    ensures
        0 <= from <= s.len(),
        trim_start(s, class) == s.subrange(from, s.len() as int),
        forall|i: int| 0 <= i < from ==> class.holds(#[trigger] s[i]),
        from < s.len() ==> !class.holds(s[from]),
    decreases s.len(),
{
    if s.len() > 0 && class.holds(s[0]) {
        let rest = s.drop_first();
        let inner = lemma_trim_start(rest, class);
        assert forall|i: int| 0 <= i < inner + 1 implies class.holds(#[trigger] s[i]) by {
            if i > 0 {
                assert(rest[i - 1] == s[i]);
            }
        }
        inner + 1
    } else {
        0
    }
}

proof fn lemma_trim_end(s: Seq<char>, class: CharClass) -> (to: int)
    ensures
        0 <= to <= s.len(),
        trim_end(s, class) == s.subrange(0, to),
        forall|i: int| to <= i < s.len() ==> class.holds(#[trigger] s[i]),
        0 < to ==> !class.holds(s[to - 1]),
    decreases s.len(),
{
    if s.len() > 0 && class.holds(s.last()) {
        let rest = s.drop_last();
        let inner = lemma_trim_end(rest, class);
        assert forall|i: int| inner <= i < s.len() implies class.holds(#[trigger] s[i]) by {
            if i < rest.len() {
                assert(rest[i] == s[i]);
            }
        }
        inner
    } else {
        s.len() as int
    }
}

/// Where what is left of `chars[from..to]` after trimming begins and ends.
pub fn trim_bounds(chars: &Vec<char>, from: usize, to: usize, class: CharClass) -> (bounds: (
    usize,
    usize,
))
    requires
        from <= to <= chars@.len(),
    ensures
        from <= bounds.0 <= bounds.1 <= to,
        chars@.subrange(bounds.0 as int, bounds.1 as int) == trim(
            chars@.subrange(from as int, to as int),
            class,
        ),
{
    let mut a: usize = from;
    while a < to && class.test(chars[a])
        invariant
            from <= a <= to <= chars@.len(),
            trim_start(chars@.subrange(from as int, to as int), class) == trim_start(
                chars@.subrange(a as int, to as int),
                class,
            ),
        decreases to - a,
    {
        assert(chars@.subrange(a as int, to as int).drop_first() =~= chars@.subrange(
            a + 1,
            to as int,
        ));
        a += 1;
    }
    let mut b: usize = to;
    while b > a && class.test(chars[b - 1])
        invariant
            a <= b <= to <= chars@.len(),
            trim_end(chars@.subrange(a as int, to as int), class) == trim_end(
                chars@.subrange(a as int, b as int),
                class,
            ),
        decreases b - a,
    {
        assert(chars@.subrange(a as int, b as int).drop_last() =~= chars@.subrange(
            a as int,
            b - 1,
        ));
        b -= 1;
    }
    (a, b)
}

/// Whether `pat` stands in `s` at position `i`.
pub open spec fn occurs_at(s: Seq<char>, pat: Seq<char>, i: int) -> bool {
    0 <= i && i + pat.len() <= s.len() && s.subrange(i, i + pat.len()) == pat
}

/// Whether `pat` stands somewhere in `s`.
pub open spec fn contains_text(s: Seq<char>, pat: Seq<char>) -> bool {
    exists|i: int| occurs_at(s, pat, i)
}

/// Whether `pat` stands in `chars` at position `i`.
fn matches_at(chars: &Vec<char>, pat: &Vec<char>, i: usize) -> (r: bool)
    requires
        i + pat@.len() <= chars@.len(),
    ensures
        r == occurs_at(chars@, pat@, i as int),
{
    let mut j: usize = 0;
    while j < pat.len()
        invariant
            j <= pat.len(),
            i + pat.len() <= chars.len(),
            chars@.subrange(i as int, i + j) == pat@.take(j as int),
        decreases pat.len() - j,
    {
        if chars[i + j] != pat[j] {
            return false;
        }
        j += 1;
    }
    assert(pat@.take(j as int) =~= pat@);
    true
}

/// Searches `chars` for `pat`.
pub fn find(chars: &Vec<char>, pat: &Vec<char>) -> (found: bool)
    ensures
        found == contains_text(chars@, pat@),
{
    if pat.len() > chars.len() {
        return false;
    }
    let last: usize = chars.len() - pat.len();
    let mut i: usize = 0;
    while i < last
        invariant
            i <= last,
            last == chars.len() - pat.len(),
            forall|k: int| 0 <= k < i ==> !occurs_at(chars@, pat@, k),
        decreases last - i,
    {
        if matches_at(chars, pat, i) {
            return true;
        }
        i += 1;
    }
    matches_at(chars, pat, last)
}

/// The order of strings: by the first character in which they differ, a
/// string before each of its extensions. Characters are ordered by their code
/// points, which is also the order of the bytes that encode them, so this is
/// the order in which strings compare.
pub open spec fn precedes(a: Seq<char>, b: Seq<char>) -> bool
    decreases a.len(),
{
    if a.len() == 0 {
        true
    } else if b.len() == 0 {
        false
    } else if a[0] == b[0] {
        precedes(a.drop_first(), b.drop_first())
    } else {
        (a[0] as u32) < (b[0] as u32)
    }
}

/// Every string precedes itself.
pub proof fn lemma_precedes_reflexive(a: Seq<char>)
    ensures
        precedes(a, a),
    decreases a.len(),
{
    if a.len() > 0 {
        lemma_precedes_reflexive(a.drop_first());
    }
}

/// Of two strings one precedes the other.
pub proof fn lemma_precedes_total(a: Seq<char>, b: Seq<char>)
    ensures
        precedes(a, b) || precedes(b, a),
    decreases a.len(),
{
    if a.len() > 0 && b.len() > 0 {
        if a[0] == b[0] {
            lemma_precedes_total(a.drop_first(), b.drop_first());
        } else {
            vstd::utf8::char_u32_cast(a[0], a[0] as u32);
            vstd::utf8::char_u32_cast(b[0], b[0] as u32);
        }
    }
}

/// The order is transitive.
pub proof fn lemma_precedes_transitive(a: Seq<char>, b: Seq<char>, c: Seq<char>)
    requires
        precedes(a, b),
        precedes(b, c),
    ensures
        precedes(a, c),
    decreases a.len(),
{
    if a.len() > 0 {
        if a[0] == b[0] && b[0] == c[0] {
            lemma_precedes_transitive(a.drop_first(), b.drop_first(), c.drop_first());
        }
    }
}

/// Compares two strings.
pub fn in_order(a: &Vec<char>, b: &Vec<char>) -> (r: bool)
    ensures
        r == precedes(a@, b@),
{
    let mut i: usize = 0;
    assert(a@.skip(0) =~= a@ && b@.skip(0) =~= b@);
    while i < a.len()
        invariant
            i <= a.len(),
            i <= b.len(),
            precedes(a@, b@) == precedes(a@.skip(i as int), b@.skip(i as int)),
        decreases a.len() - i,
    {
        if i >= b.len() {
            return false;
        }
        if a[i] != b[i] {
            return (a[i] as u32) < (b[i] as u32);
        }
        assert(a@.skip(i as int).drop_first() =~= a@.skip(i + 1));
        assert(b@.skip(i as int).drop_first() =~= b@.skip(i + 1));
        i += 1;
    }
    true
}

} // verus!
