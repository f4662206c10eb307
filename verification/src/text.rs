//! Characters and text: the few operations on strings that the parsers need.
//!
//! Text is modelled as `Seq<char>`. The executable functions work on a
//! `Vec<char>` taken once from the string, so that every position can be
//! reached in constant time.

use vstd::prelude::*;

verus! {

/// Appending a character to a `String` appends it to its view.
pub assume_specification[ String::push ](text: &mut String, ch: char)
    ensures
        final(text)@ == old(text)@.push(ch),
;

/// White space as `str::trim` understands it: the code points with the
/// Unicode property `White_Space`.
pub open spec fn is_space(c: char) -> bool {
    let v = c as u32;
    ||| 0x09 <= v <= 0x0D
    ||| v == 0x20
    ||| v == 0x85
    ||| v == 0xA0
    ||| v == 0x1680
    ||| 0x2000 <= v <= 0x200A
    ||| v == 0x2028
    ||| v == 0x2029
    ||| v == 0x202F
    ||| v == 0x205F
    ||| v == 0x3000
}

/// Index of the first `c` in `s`, or `s.len()` where there is none.
pub open spec fn position(s: Seq<char>, c: char) -> int
    decreases s.len(),
{
    if s.len() == 0 || s[0] == c {
        0
    } else {
        1 + position(s.drop_first(), c)
    }
}

/// Whether `c` occurs in `s`.
pub open spec fn occurs(s: Seq<char>, c: char) -> bool {
    position(s, c) < s.len()
}

/// Number of white-space characters at the front of `s`.
pub open spec fn space_prefix(s: Seq<char>) -> int
    decreases s.len(),
{
    if s.len() == 0 || !is_space(s[0]) {
        0
    } else {
        1 + space_prefix(s.drop_first())
    }
}

/// Index just behind the last character of `s` that is not white space;
/// `0` where every character is.
pub open spec fn solid_end(s: Seq<char>) -> int
    decreases s.len(),
{
    if s.len() == 0 {
        0
    } else if !is_space(s.last()) {
        s.len() as int
    } else {
        solid_end(s.drop_last())
    }
}

/// `s` without the white space at its two ends.
pub open spec fn trimmed(s: Seq<char>) -> Seq<char> {
    if space_prefix(s) < solid_end(s) {
        s.subrange(space_prefix(s), solid_end(s))
    } else {
        Seq::empty()
    }
}

/// Length of the first line of `text`, its line feed included.
pub open spec fn line_len(text: Seq<char>) -> int {
    if occurs(text, '\n') {
        position(text, '\n') + 1
    } else {
        text.len() as int
    }
}

/// The lines of `text`. Each but the last ends in a line feed, none is empty,
/// and together they make up `text`.
pub open spec fn lines(text: Seq<char>) -> Seq<Seq<char>>
    decreases text.len(),
{
    if text.len() == 0 {
        Seq::empty()
    } else {
        proof {
            lemma_position(text, '\n');
        }
        seq![text.take(line_len(text))] + lines(text.skip(line_len(text)))
    }
}

/// The field of `s` with the index `k`, where `s` is cut at every `sep`;
/// `None` where `s` has fewer fields.
pub open spec fn field(s: Seq<char>, sep: char, k: nat) -> Option<Seq<char>>
    decreases k,
{
    if k == 0 {
        Some(s.take(position(s, sep)))
    } else if occurs(s, sep) {
        field(s.skip(position(s, sep) + 1), sep, (k - 1) as nat)
    } else {
        None
    }
}

/// `k` is where the first `c` of `s` stands, or the length of `s`.
pub open spec fn is_position(s: Seq<char>, c: char, k: int) -> bool {
    &&& 0 <= k <= s.len()
    &&& forall|j: int| 0 <= j < k ==> s[j] != c
    &&& k < s.len() ==> s[k] == c
}

/// The position has the properties that define it.
pub proof fn lemma_position(s: Seq<char>, c: char)
    ensures
        is_position(s, c, position(s, c)),
    decreases s.len(),
{
    if s.len() == 0 || s[0] == c {
    } else {
        let t = s.drop_first();
        lemma_position(t, c);
        assert forall|j: int| 0 <= j < position(s, c) implies s[j] != c by {
            if j > 0 {
                assert(s[j] == t[j - 1]);
            }
        }
    }
}

/// The position is the only index with these properties.
pub proof fn lemma_position_is(s: Seq<char>, c: char, k: int)
    requires
        is_position(s, c, k),
    ensures
        position(s, c) == k,
{
    lemma_position(s, c);
}

/// The lines of a text make up the text, none of them is empty, and a line
/// feed stands at the end of each but possibly the last, and nowhere else.
pub proof fn lemma_lines(text: Seq<char>)
    ensures
        lines(text).flatten() == text,
        forall|i: int|
            0 <= i < lines(text).len() ==> {
                let line = #[trigger] lines(text)[i];
                &&& line.len() > 0
                &&& forall|j: int| 0 <= j < line.len() - 1 ==> line[j] != '\n'
                &&& i < lines(text).len() - 1 ==> line.last() == '\n'
            },
    decreases text.len(),
{
    if text.len() > 0 {
        lemma_position(text, '\n');
        let first = text.take(line_len(text));
        let rest = text.skip(line_len(text));
        lemma_lines(rest);
        let all = lines(text);
        assert(all.first() == first);
        assert(all.drop_first() =~= lines(rest));
        assert(first + rest =~= text);
        assert forall|i: int| 0 <= i < all.len() implies {
            let line = #[trigger] all[i];
            &&& line.len() > 0
            &&& forall|j: int| 0 <= j < line.len() - 1 ==> line[j] != '\n'
            &&& i < all.len() - 1 ==> line.last() == '\n'
        } by {
            if i > 0 {
                assert(all[i] == lines(rest)[i - 1]);
            } else if all.len() > 1 {
                // a text goes on behind its first line only behind a line feed
                assert(rest.len() > 0);
                assert(occurs(text, '\n'));
            }
        }
    } else {
        assert(lines(text).flatten() =~= text);
    }
}

/// `k` leading characters of `s` are white space and the next one is not.
pub open spec fn is_space_prefix(s: Seq<char>, k: int) -> bool {
    &&& 0 <= k <= s.len()
    &&& forall|j: int| 0 <= j < k ==> is_space(s[j])
    &&& k < s.len() ==> !is_space(s[k])
}

/// The white-space prefix has the properties that define it.
pub proof fn lemma_space_prefix(s: Seq<char>)
    ensures
        is_space_prefix(s, space_prefix(s)),
    decreases s.len(),
{
    if s.len() == 0 || !is_space(s[0]) {
    } else {
        let t = s.drop_first();
        lemma_space_prefix(t);
        assert forall|j: int| 0 <= j < space_prefix(s) implies is_space(s[j]) by {
            if j > 0 {
                assert(s[j] == t[j - 1]);
            }
        }
    }
}

/// The white-space prefix is the only number with these properties.
pub proof fn lemma_space_prefix_is(s: Seq<char>, k: int)
    requires
        is_space_prefix(s, k),
    ensures
        space_prefix(s) == k,
{
    lemma_space_prefix(s);
}

/// Everything from `k` on is white space and the character before `k` is not.
pub open spec fn is_solid_end(s: Seq<char>, k: int) -> bool {
    &&& 0 <= k <= s.len()
    &&& forall|j: int| k <= j < s.len() ==> is_space(s[j])
    &&& k > 0 ==> !is_space(s[k - 1])
}

/// The solid end has the properties that define it.
pub proof fn lemma_solid_end(s: Seq<char>)
    ensures
        is_solid_end(s, solid_end(s)),
    decreases s.len(),
{
    if s.len() == 0 || !is_space(s.last()) {
    } else {
        let t = s.drop_last();
        lemma_solid_end(t);
        assert forall|j: int| solid_end(s) <= j < s.len() implies is_space(s[j]) by {
            if j < t.len() {
                assert(s[j] == t[j]);
            }
        }
    }
}

/// The solid end is the only index with these properties.
pub proof fn lemma_solid_end_is(s: Seq<char>, k: int)
    requires
        is_solid_end(s, k),
    ensures
        solid_end(s) == k,
{
    lemma_solid_end(s);
}

/// Whether `c` is white space.
pub(crate) fn char_is_space(c: char) -> (b: bool)
    ensures
        b == is_space(c),
{
    let v: u32 = c as u32;
    (0x09 <= v && v <= 0x0D) || v == 0x20 || v == 0x85 || v == 0xA0 || v == 0x1680 || (0x2000 <= v
        && v <= 0x200A) || v == 0x2028 || v == 0x2029 || v == 0x202F || v == 0x205F || v == 0x3000
}

/// The characters of `text`, in order.
pub(crate) fn chars_of(text: &str) -> (chars: Vec<char>)
    ensures
        chars@ == text@,
{
    broadcast use vstd::string::axiom_spec_iter;

    let mut chars: Vec<char> = Vec::new();
    for c in it: text.chars()
        invariant
            it.seq() == text@,
            chars@ == it.seq().take(it.index() as int),
    {
        chars.push(c);
        proof {
            assert(it.seq().take(it.index() + 1) =~= it.seq().take(it.index() as int).push(c));
        }
    }
    proof {
        assert(text@.take(text@.len() as int) =~= text@);
    }
    chars
}

/// The characters of `chars` from `from` up to `to`, as a `String`.
pub(crate) fn string_of(chars: &Vec<char>, from: usize, to: usize) -> (text: String)
    requires
        from <= to <= chars@.len(),
    ensures
        text@ == chars@.subrange(from as int, to as int),
{
    let mut text = String::new();
    let mut i: usize = from;
    while i < to
        invariant
            from <= i <= to <= chars@.len(),
            text@ == chars@.subrange(from as int, i as int),
        decreases to - i,
    {
        text.push(chars[i]);
        proof {
            assert(chars@.subrange(from as int, i + 1) =~= chars@.subrange(
                from as int,
                i as int,
            ).push(chars@[i as int]));
        }
        i += 1;
    }
    text
}

/// Index of the first `c` in `chars[from..to]`, counted from `from`; `to -
/// from` where there is none.
pub(crate) fn find_char(chars: &Vec<char>, from: usize, to: usize, c: char) -> (k: usize)
    requires
        from <= to <= chars@.len(),
    ensures
        k == position(chars@.subrange(from as int, to as int), c),
        k <= to - from,
{
    let ghost s = chars@.subrange(from as int, to as int);
    let mut i: usize = from;
    while i < to && chars[i] != c
        invariant
            from <= i <= to <= chars@.len(),
            s == chars@.subrange(from as int, to as int),
            forall|j: int| 0 <= j < i - from ==> s[j] != c,
        decreases to - i,
    {
        i += 1;
    }
    proof {
        lemma_position_is(s, c, i - from);
    }
    i - from
}

/// The bounds within `chars[from..to]` of what `trimmed` leaves of it, as
/// indices into `chars`.
pub(crate) fn trim_bounds(chars: &Vec<char>, from: usize, to: usize) -> (bounds: (usize, usize))
    requires
        from <= to <= chars@.len(),
    ensures
        from <= bounds.0 <= bounds.1 <= to,
        chars@.subrange(bounds.0 as int, bounds.1 as int) == trimmed(
            chars@.subrange(from as int, to as int),
        ),
{
    let ghost s = chars@.subrange(from as int, to as int);
    let mut a: usize = from;
    while a < to && char_is_space(chars[a])
        invariant
            from <= a <= to <= chars@.len(),
            s == chars@.subrange(from as int, to as int),
            forall|j: int| 0 <= j < a - from ==> is_space(s[j]),
        decreases to - a,
    {
        a += 1;
    }
    let mut b: usize = to;
    while b > a && char_is_space(chars[b - 1])
        invariant
            from <= a <= b <= to <= chars@.len(),
            s == chars@.subrange(from as int, to as int),
            forall|j: int| b - from <= j < s.len() ==> is_space(s[j]),
        decreases b - a,
    {
        b -= 1;
    }
    proof {
        lemma_space_prefix_is(s, a - from);
        if a < b {
            lemma_solid_end_is(s, b - from);
            assert(chars@.subrange(a as int, b as int) =~= s.subrange(a - from, b - from));
        } else {
            lemma_solid_end(s);
            assert(chars@.subrange(a as int, b as int) =~= Seq::<char>::empty());
        }
    }
    (a, b)
}

/// The end of the line that begins at `pos`: the index behind its line
/// feed, or the end of the text where the line has none.
pub(crate) fn line_end(chars: &Vec<char>, pos: usize) -> (end: usize)
    requires
        pos < chars@.len(),
    ensures
        pos < end <= chars@.len(),
        lines(chars@.skip(pos as int)) == seq![chars@.subrange(pos as int, end as int)] + lines(
            chars@.skip(end as int),
        ),
{
    let ghost rest = chars@.skip(pos as int);
    proof {
        assert(rest =~= chars@.subrange(pos as int, chars@.len() as int));
    }
    let feed: usize = find_char(chars, pos, chars.len(), '\n');
    let end: usize = if feed < chars.len() - pos {
        pos + feed + 1
    } else {
        chars.len()
    };
    proof {
        assert(rest.take(line_len(rest)) =~= chars@.subrange(pos as int, end as int));
        assert(rest.skip(line_len(rest)) =~= chars@.skip(end as int));
    }
    end
}

/// Whether `chars[from..to]` is the text `word`.
pub(crate) fn is_word(chars: &Vec<char>, from: usize, to: usize, word: &str) -> (same: bool)
    requires
        from <= to <= chars@.len(),
    ensures
        same == (chars@.subrange(from as int, to as int) == word@),
{
    let letters = chars_of(word);
    if letters.len() != to - from {
        return false;
    }
    let ghost s = chars@.subrange(from as int, to as int);
    let mut i: usize = 0;
    while i < letters.len()
        invariant
            from <= to <= chars@.len(),
            letters@.len() == to - from,
            letters@ == word@,
            i <= letters@.len(),
            s == chars@.subrange(from as int, to as int),
            forall|j: int| 0 <= j < i ==> s[j] == letters@[j],
        decreases letters@.len() - i,
    {
        if chars[from + i] != letters[i] {
            proof {
                assert(s[i as int] == chars@[from + i]);
            }
            return false;
        }
        proof {
            assert(s[i as int] == chars@[from + i]);
        }
        i += 1;
    }
    proof {
        assert(s =~= letters@);
    }
    true
}

/// The bounds within `chars` of the field of `chars[from..to]` with the
/// index `k`, where the text is cut at every `sep`.
pub(crate) fn find_field(chars: &Vec<char>, from: usize, to: usize, sep: char, k: usize) -> (bounds:
    Option<(usize, usize)>)
    requires
        from <= to <= chars@.len(),
    ensures
        match bounds {
            Some((a, b)) => from <= a <= b <= to && field(
                chars@.subrange(from as int, to as int),
                sep,
                k as nat,
            ) == Some(chars@.subrange(a as int, b as int)),
            None => field(chars@.subrange(from as int, to as int), sep, k as nat) is None,
        },
{
    let ghost s = chars@.subrange(from as int, to as int);
    let mut start: usize = from;
    let mut left: usize = k;
    proof {
        assert(chars@.subrange(start as int, to as int) == s);
    }
    loop
        invariant
            from <= start <= to <= chars@.len(),
            s == chars@.subrange(from as int, to as int),
            field(s, sep, k as nat) == field(
                chars@.subrange(start as int, to as int),
                sep,
                left as nat,
            ),
        decreases left,
    {
        let ghost here = chars@.subrange(start as int, to as int);
        let p: usize = find_char(chars, start, to, sep);
        if left == 0 {
            proof {
                assert(here.take(p as int) =~= chars@.subrange(start as int, start + p));
            }
            return Some((start, start + p));
        }
        if p >= to - start {
            return None;
        }
        proof {
            assert(here.skip(p + 1) =~= chars@.subrange(start + p + 1, to as int));
        }
        start = start + p + 1;
        left = left - 1;
    }
}

} // verus!
