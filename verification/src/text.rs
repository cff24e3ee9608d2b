//! Text as sequences of characters: whitespace, trimming, lines, and the
//! collapsing of whitespace runs.
//!
//! The specification functions work on `Seq<char>`, the view of `str` and
//! `String`. The executable functions work on a `Vec<char>` and on ranges of
//! it, so that a line or a trimmed line is a pair of indices and costs no
//! allocation.

use vstd::prelude::*;

verus! {

/// The characters that Unicode classes as `White_Space`.
pub open spec fn whitespace(c: char) -> bool {
    let n = c as u32;
    ||| 0x09 <= n <= 0x0D
    ||| n == 0x20
    ||| n == 0x85
    ||| n == 0xA0
    ||| n == 0x1680
    ||| 0x2000 <= n <= 0x200A
    ||| n == 0x2028
    ||| n == 0x2029
    ||| n == 0x202F
    ||| n == 0x205F
    ||| n == 0x3000
}

/// `s` without the whitespace at its start.
pub open spec fn trimmed_start(s: Seq<char>) -> Seq<char>
    decreases s.len(),
{
    if s.len() > 0 && whitespace(s.first()) {
        trimmed_start(s.drop_first())
    } else {
        s
    }
}

/// `s` without the whitespace at its end.
pub open spec fn trimmed_end(s: Seq<char>) -> Seq<char>
    decreases s.len(),
{
    if s.len() > 0 && whitespace(s.last()) {
        trimmed_end(s.drop_last())
    } else {
        s
    }
}

/// `s` without the whitespace at its start and at its end.
pub open spec fn trimmed(s: Seq<char>) -> Seq<char> {
    trimmed_end(trimmed_start(s))
}

/// The number of characters before the first newline of `s`; the length of
/// `s` where it holds no newline.
pub open spec fn first_newline(s: Seq<char>) -> nat
    decreases s.len(),
{
    if s.len() == 0 || s.first() == '\n' {
        0
    } else {
        1 + first_newline(s.drop_first())
    }
}

/// The lines of `s`: the pieces between its newline characters, in order.
/// There is always at least one line, and a text that ends in a newline has
/// an empty last line.
pub open spec fn lines(s: Seq<char>) -> Seq<Seq<char>>
    decreases s.len(),
{
    let n = first_newline(s) as int;
    if n < s.len() {
        seq![s.take(n)] + lines(s.skip(n + 1))
    } else {
        seq![s]
    }
}

/// Whether `s` holds no newline, and so is one line.
pub open spec fn single_line(s: Seq<char>) -> bool {
    forall|i: int| 0 <= i < s.len() ==> #[trigger] s[i] != '\n'
}

/// The text made of the lines `ls` with a newline between each two.
pub open spec fn joined(ls: Seq<Seq<char>>) -> Seq<char>
    decreases ls.len(),
{
    if ls.len() == 0 {
        Seq::empty()
    } else if ls.len() == 1 {
        ls.last()
    } else {
        joined(ls.drop_last()) + seq!['\n'] + ls.last()
    }
}

/// `s` with every run of whitespace replaced by one space. A whitespace
/// character yields the space if it is the last of its run, and nothing
/// otherwise.
pub open spec fn collapsed(s: Seq<char>) -> Seq<char>
    decreases s.len(),
{
    if s.len() == 0 {
        s
    } else if !whitespace(s.first()) {
        seq![s.first()] + collapsed(s.drop_first())
    } else if s.len() > 1 && whitespace(s[1]) {
        collapsed(s.drop_first())
    } else {
        seq![' '] + collapsed(s.drop_first())
    }
}

/// `s` trimmed, with every run of whitespace inside it replaced by one space.
pub open spec fn normalized(s: Seq<char>) -> Seq<char> {
    collapsed(trimmed(s))
}

/// Whether `s` neither starts nor ends with whitespace and holds no two
/// whitespace characters in a row.
pub open spec fn tidy(s: Seq<char>) -> bool {
    &&& s.len() > 0 ==> !whitespace(s.first()) && !whitespace(s.last())
    &&& forall|i: int| 0 <= i < s.len() - 1 ==> !(whitespace(#[trigger] s[i]) && whitespace(s[i + 1]))
}

/// Where the leading whitespace of `s` ends, `trimmed_start` begins.
pub proof fn lemma_trimmed_start_skips(s: Seq<char>, a: int)
    requires
        0 <= a <= s.len(),
        forall|j: int| 0 <= j < a ==> whitespace(#[trigger] s[j]),
        a < s.len() ==> !whitespace(s[a]),
    ensures
        trimmed_start(s) == s.skip(a),
    decreases a,
{
    if a == 0 {
        assert(s.skip(0) =~= s);
    } else {
        assert(whitespace(s[0]));
        let rest = s.drop_first();
        assert forall|j: int| 0 <= j < a - 1 implies whitespace(#[trigger] rest[j]) by {
            assert(rest[j] == s[j + 1]);
        }
        lemma_trimmed_start_skips(rest, a - 1);
        assert(rest.skip(a - 1) =~= s.skip(a));
    }
}

/// Where the trailing whitespace of `s` begins, `trimmed_end` ends.
pub proof fn lemma_trimmed_end_takes(s: Seq<char>, b: int)
    requires
        0 <= b <= s.len(),
        forall|j: int| b <= j < s.len() ==> whitespace(#[trigger] s[j]),
        b > 0 ==> !whitespace(s[b - 1]),
    ensures
        trimmed_end(s) == s.take(b),
    decreases s.len() - b,
{
    if b == s.len() {
        assert(s.take(b) =~= s);
    } else {
        assert(whitespace(s[s.len() - 1]));
        let rest = s.drop_last();
        assert forall|j: int| b <= j < rest.len() implies whitespace(#[trigger] rest[j]) by {
            assert(rest[j] == s[j]);
        }
        lemma_trimmed_end_takes(rest, b);
        assert(rest.take(b) =~= s.take(b));
    }
}

/// The first newline of `s` stands where no newline stands before it.
pub proof fn lemma_first_newline_at(s: Seq<char>, k: int)
    requires
        0 <= k <= s.len(),
        forall|j: int| 0 <= j < k ==> #[trigger] s[j] != '\n',
        k < s.len() ==> s[k] == '\n',
    ensures
        first_newline(s) == k,
    decreases k,
{
    if k > 0 {
        assert(s[0] != '\n');
        let rest = s.drop_first();
        assert forall|j: int| 0 <= j < k - 1 implies #[trigger] rest[j] != '\n' by {
            assert(rest[j] == s[j + 1]);
        }
        lemma_first_newline_at(rest, k - 1);
    }
}

/// No newline stands before the first newline of `s`, and a newline stands
/// there unless `s` holds none.
pub proof fn lemma_first_newline_is_first(s: Seq<char>)
    ensures
        first_newline(s) <= s.len(),
        forall|j: int| 0 <= j < first_newline(s) ==> #[trigger] s[j] != '\n',
        first_newline(s) < s.len() ==> s[first_newline(s) as int] == '\n',
    decreases s.len(),
{
    if s.len() > 0 && s.first() != '\n' {
        let rest = s.drop_first();
        lemma_first_newline_is_first(rest);
        assert forall|j: int| 0 <= j < first_newline(s) implies #[trigger] s[j] != '\n' by {
            if j > 0 {
                assert(s[j] == rest[j - 1]);
            }
        }
        if first_newline(s) < s.len() {
            assert(s[first_newline(s) as int] == rest[first_newline(rest) as int]);
        }
    }
}

/// A text without a newline is its own and only line.
pub proof fn lemma_lines_of_single_line(s: Seq<char>)
    requires
        single_line(s),
    ensures
        lines(s) == seq![s],
{
    lemma_first_newline_at(s, s.len() as int);
}

/// Every text has a line.
pub proof fn lemma_lines_nonempty(s: Seq<char>)
    ensures
        lines(s).len() > 0,
{
}

/// The lines of two texts with a newline between them are the lines of the
/// first, then those of the second.
pub proof fn lemma_lines_of_concat(s: Seq<char>, t: Seq<char>)
    ensures
        lines(s + seq!['\n'] + t) == lines(s) + lines(t),
    decreases s.len(),
{
    let u = s + seq!['\n'] + t;
    let n = first_newline(s) as int;
    lemma_first_newline_is_first(s);
    assert forall|j: int| 0 <= j < n implies #[trigger] u[j] != '\n' by {
        assert(u[j] == s[j]);
    }
    assert(u[n] == '\n');
    lemma_first_newline_at(u, n);
    assert(u.take(n) =~= s.take(n));
    if n < s.len() {
        let rest = s.skip(n + 1);
        assert(u.skip(n + 1) =~= rest + seq!['\n'] + t);
        lemma_lines_of_concat(rest, t);
        assert(seq![s.take(n)] + (lines(rest) + lines(t)) =~= (seq![s.take(n)] + lines(rest))
            + lines(t));
    } else {
        assert(s.take(n) =~= s);
        assert(u.skip(n + 1) =~= t);
    }
}

/// Cutting into lines undoes joining: the lines of the text made of `ls` are
/// `ls`, where there is at least one of them and none holds a newline.
pub proof fn lemma_lines_of_joined(ls: Seq<Seq<char>>)
    requires
        ls.len() > 0,
        forall|i: int| 0 <= i < ls.len() ==> single_line(#[trigger] ls[i]),
    ensures
        lines(joined(ls)) == ls,
    decreases ls.len(),
{
    lemma_lines_of_single_line(ls.last());
    if ls.len() == 1 {
        assert(seq![ls.last()] =~= ls);
    } else {
        let init = ls.drop_last();
        assert forall|i: int| 0 <= i < init.len() implies single_line(#[trigger] init[i]) by {
            assert(init[i] == ls[i]);
        }
        lemma_lines_of_joined(init);
        lemma_lines_of_concat(joined(init), ls.last());
        assert(init + seq![ls.last()] =~= ls);
    }
}

/// What is left of a text after `trimmed_start` does not start with
/// whitespace.
pub proof fn lemma_trimmed_start_first(s: Seq<char>)
    ensures
        trimmed_start(s).len() > 0 ==> !whitespace(trimmed_start(s).first()),
    decreases s.len(),
{
    if s.len() > 0 && whitespace(s.first()) {
        lemma_trimmed_start_first(s.drop_first());
    }
}

/// What is left of a text after `trimmed_end` is a prefix of the text that
/// does not end with whitespace.
pub proof fn lemma_trimmed_end_prefix(s: Seq<char>)
    ensures
        trimmed_end(s).len() <= s.len(),
        trimmed_end(s) == s.take(trimmed_end(s).len() as int),
        trimmed_end(s).len() > 0 ==> !whitespace(trimmed_end(s).last()),
    decreases s.len(),
{
    if s.len() > 0 && whitespace(s.last()) {
        let rest = s.drop_last();
        lemma_trimmed_end_prefix(rest);
        assert(rest.take(trimmed_end(rest).len() as int) =~= s.take(trimmed_end(rest).len() as int));
    } else {
        assert(s.take(s.len() as int) =~= s);
    }
}

/// A trimmed text neither starts nor ends with whitespace.
pub proof fn lemma_trimmed_ends(s: Seq<char>)
    ensures
        trimmed(s).len() > 0 ==> !whitespace(trimmed(s).first()) && !whitespace(trimmed(s).last()),
{
    lemma_trimmed_start_first(s);
    lemma_trimmed_end_prefix(trimmed_start(s));
}

/// Collapsing keeps a text's ends as they are, whitespace or not, empties no
/// text, and leaves no two whitespace characters in a row.
pub proof fn lemma_collapsed_shape(s: Seq<char>)
    ensures
        collapsed(s).len() == 0 <==> s.len() == 0,
        s.len() > 0 ==> whitespace(collapsed(s).first()) == whitespace(s.first()),
        s.len() > 0 ==> whitespace(collapsed(s).last()) == whitespace(s.last()),
        forall|i: int|
            0 <= i < collapsed(s).len() - 1 ==> !(whitespace(#[trigger] collapsed(s)[i])
                && whitespace(collapsed(s)[i + 1])),
    decreases s.len(),
{
    if s.len() > 0 {
        let rest = s.drop_first();
        let tail = collapsed(rest);
        lemma_collapsed_shape(rest);
        if rest.len() > 0 {
            assert(rest.first() == s[1]);
            assert(rest.last() == s.last());
        }
        if !(whitespace(s.first()) && s.len() > 1 && whitespace(s[1])) {
            let head = if whitespace(s.first()) {
                ' '
            } else {
                s.first()
            };
            let whole = collapsed(s);
            assert(whole =~= seq![head] + tail);
            assert(whitespace(' '));
            assert forall|i: int| 0 <= i < whole.len() - 1 implies !(whitespace(#[trigger] whole[i])
                && whitespace(whole[i + 1])) by {
                if i > 0 {
                    assert(whole[i] == tail[i - 1]);
                    assert(whole[i + 1] == tail[i]);
                } else {
                    assert(whole[1] == tail.first());
                }
            }
            if tail.len() > 0 {
                assert(whole.last() == tail.last());
            }
        }
    }
}

/// A normalized text is tidy: no whitespace at either end, and no two
/// whitespace characters in a row.
pub proof fn lemma_normalized_is_tidy(s: Seq<char>)
    ensures
        tidy(normalized(s)),
{
    lemma_trimmed_ends(s);
    lemma_collapsed_shape(trimmed(s));
}

/// Trimming leaves a text as it is where it neither starts nor ends with
/// whitespace.
pub proof fn lemma_trimmed_of_trimmed(s: Seq<char>)
    requires
        s.len() > 0 ==> !whitespace(s.first()) && !whitespace(s.last()),
    ensures
        trimmed(s) == s,
{
}

/// Every whitespace character that collapsing leaves is a space.
pub proof fn lemma_collapsed_whitespace_is_space(s: Seq<char>)
    ensures
        forall|i: int|
            0 <= i < collapsed(s).len() && whitespace(#[trigger] collapsed(s)[i]) ==> collapsed(
                s,
            )[i] == ' ',
    decreases s.len(),
{
    if s.len() > 0 {
        let rest = s.drop_first();
        let tail = collapsed(rest);
        lemma_collapsed_whitespace_is_space(rest);
        if !(whitespace(s.first()) && s.len() > 1 && whitespace(s[1])) {
            let whole = collapsed(s);
            assert forall|i: int| 0 <= i < whole.len() && whitespace(#[trigger] whole[i]) implies whole[i]
                == ' ' by {
                if i > 0 {
                    assert(whole[i] == tail[i - 1]);
                }
            }
        }
    }
}

/// Collapsing leaves a text as it is where its only whitespace is single
/// spaces.
pub proof fn lemma_collapsed_of_collapsed(s: Seq<char>)
    requires
        forall|i: int| 0 <= i < s.len() && whitespace(#[trigger] s[i]) ==> s[i] == ' ',
        forall|i: int| 0 <= i < s.len() - 1 ==> !(whitespace(#[trigger] s[i]) && whitespace(s[i + 1])),
    ensures
        collapsed(s) == s,
    decreases s.len(),
{
    if s.len() > 0 {
        let rest = s.drop_first();
        assert forall|i: int| 0 <= i < rest.len() && whitespace(#[trigger] rest[i]) implies rest[i]
            == ' ' by {
            assert(rest[i] == s[i + 1]);
        }
        assert forall|i: int| 0 <= i < rest.len() - 1 implies !(whitespace(#[trigger] rest[i])
            && whitespace(rest[i + 1])) by {
            assert(rest[i] == s[i + 1]);
            assert(rest[i + 1] == s[i + 2]);
        }
        lemma_collapsed_of_collapsed(rest);
        assert(s.len() > 1 ==> !(whitespace(s[0]) && whitespace(s[0int + 1])));
        assert(seq![s.first()] + rest =~= s);
    }
}

/// Normalizing twice is normalizing once.
pub proof fn lemma_normalized_is_idempotent(s: Seq<char>)
    ensures
        normalized(normalized(s)) == normalized(s),
{
    let once = normalized(s);
    lemma_normalized_is_tidy(s);
    lemma_collapsed_whitespace_is_space(trimmed(s));
    lemma_trimmed_of_trimmed(once);
    lemma_collapsed_of_collapsed(once);
}

/// Whether `c` is a whitespace character.
pub fn is_whitespace(c: char) -> (b: bool)
    ensures
        b == whitespace(c),
{
    let n: u32 = c as u32;
    (0x09 <= n && n <= 0x0D) || n == 0x20 || n == 0x85 || n == 0xA0 || n == 0x1680 || (0x2000 <= n
        && n <= 0x200A) || n == 0x2028 || n == 0x2029 || n == 0x202F || n == 0x205F || n == 0x3000
}

/// The characters of `s`, in order.
pub fn chars_of(s: &str) -> (v: Vec<char>)
    ensures
        v@ == s@,
{
    let mut v: Vec<char> = Vec::new();
    for c in it: s.chars()
        invariant
            it.seq() == s@,
            v@ == it.seq().take(it.index() as int),
    {
        v.push(c);
    }
    v
}

/// `String::push`: the text gains the character at its end, and nothing
/// else of it changes.
#[verifier::external_body]
fn push_char(s: &mut String, c: char)
    ensures
        final(s)@ == old(s)@.push(c),
{
    s.push(c);
}

/// The text made of the characters `text[from..to]`.
pub fn string_of_range(text: &Vec<char>, from: usize, to: usize) -> (s: String)
    requires
        from <= to <= text.len(),
    ensures
        s@ == text@.subrange(from as int, to as int),
{
    let mut s = String::new();
    let mut i: usize = from;
    while i < to
        invariant
            from <= i <= to <= text.len(),
            s@ == text@.subrange(from as int, i as int),
        decreases to - i,
    {
        push_char(&mut s, text[i]);
        i += 1;
    }
    s
}

/// Whether the characters `text[from..to]` are those of `other`.
pub fn range_equals(text: &Vec<char>, from: usize, to: usize, other: &Vec<char>) -> (same: bool)
    requires
        from <= to <= text.len(),
    ensures
        same == (text@.subrange(from as int, to as int) == other@),
{
    if to - from != other.len() {
        return false;
    }
    let mut i: usize = 0;
    while i < other.len()
        invariant
            from <= to <= text.len(),
            to - from == other.len(),
            0 <= i <= other.len(),
            text@.subrange(from as int, from + i) == other@.take(i as int),
        decreases other.len() - i,
    {
        if text[from + i] != other[i] {
            assert(text@.subrange(from as int, to as int)[i as int] != other@[i as int]);
            return false;
        }
        i += 1;
    }
    assert(other@.take(i as int) =~= other@);
    true
}

/// The bounds of `text[from..to]` without the whitespace at its two ends.
pub fn trim_bounds(text: &Vec<char>, from: usize, to: usize) -> (bounds: (usize, usize))
    requires
        from <= to <= text.len(),
    ensures
        from <= bounds.0 <= bounds.1 <= to,
        text@.subrange(bounds.0 as int, bounds.1 as int) == trimmed(
            text@.subrange(from as int, to as int),
        ),
{
    let ghost whole = text@.subrange(from as int, to as int);
    let mut a: usize = from;
    while a < to && is_whitespace(text[a])
        invariant
            from <= a <= to <= text.len(),
            forall|j: int| from <= j < a ==> whitespace(#[trigger] text@[j]),
        decreases to - a,
    {
        a += 1;
    }
    let mut b: usize = to;
    while b > a && is_whitespace(text[b - 1])
        invariant
            a <= b <= to <= text.len(),
            forall|j: int| b <= j < to ==> whitespace(#[trigger] text@[j]),
        decreases b - a,
    {
        b -= 1;
    }
    proof {
        let tail = text@.subrange(a as int, to as int);
        assert forall|j: int| 0 <= j < a - from implies whitespace(#[trigger] whole[j]) by {
            assert(whole[j] == text@[from + j]);
        }
        lemma_trimmed_start_skips(whole, a - from);
        assert(whole.skip(a - from) =~= tail);
        assert forall|j: int| b - a <= j < tail.len() implies whitespace(#[trigger] tail[j]) by {
            assert(tail[j] == text@[a + j]);
        }
        lemma_trimmed_end_takes(tail, b - a);
        assert(tail.take(b - a) =~= text@.subrange(a as int, b as int));
    }
    (a, b)
}

/// The bounds of the lines of `text`, in order: line `i` is
/// `text[bounds[i].0..bounds[i].1]`.
pub fn line_bounds(text: &Vec<char>) -> (bounds: Vec<(usize, usize)>)
    ensures
        bounds@.len() == lines(text@).len(),
        forall|i: int|
            0 <= i < bounds@.len() ==> {
                &&& (#[trigger] bounds@[i]).0 <= bounds@[i].1 <= text@.len()
                &&& text@.subrange(bounds@[i].0 as int, bounds@[i].1 as int) == lines(text@)[i]
            },
{
    let mut bounds: Vec<(usize, usize)> = Vec::new();
    let mut start: usize = 0;
    let mut i: usize = 0;
    let ghost mut done: Seq<Seq<char>> = Seq::empty();
    assert(text@.skip(0) =~= text@);
    assert(done + lines(text@) =~= lines(text@));
    while i < text.len()
        invariant
            0 <= start <= i <= text.len(),
            forall|j: int| start <= j < i ==> #[trigger] text@[j] != '\n',
            lines(text@) == done + lines(text@.skip(start as int)),
            bounds@.len() == done.len(),
            forall|k: int|
                0 <= k < bounds@.len() ==> {
                    &&& (#[trigger] bounds@[k]).0 <= bounds@[k].1 <= text@.len()
                    &&& text@.subrange(bounds@[k].0 as int, bounds@[k].1 as int) == done[k]
                },
        decreases text.len() - i,
    {
        if text[i] == '\n' {
            proof {
                let rest = text@.skip(start as int);
                assert forall|j: int| 0 <= j < i - start implies #[trigger] rest[j] != '\n' by {
                    assert(rest[j] == text@[start + j]);
                }
                lemma_first_newline_at(rest, i - start);
                assert(rest.take(i - start) =~= text@.subrange(start as int, i as int));
                assert(rest.skip(i - start + 1) =~= text@.skip(i + 1));
                assert(done + (seq![rest.take(i - start)] + lines(rest.skip(i - start + 1)))
                    =~= done.push(rest.take(i - start)) + lines(rest.skip(i - start + 1)));
                done = done.push(text@.subrange(start as int, i as int));
            }
            bounds.push((start, i));
            start = i + 1;
        }
        i += 1;
    }
    proof {
        let rest = text@.skip(start as int);
        assert forall|j: int| 0 <= j < i - start implies #[trigger] rest[j] != '\n' by {
            assert(rest[j] == text@[start + j]);
        }
        lemma_first_newline_at(rest, i - start);
        assert(rest =~= text@.subrange(start as int, i as int));
        assert(done + seq![rest] =~= done.push(rest));
        done = done.push(rest);
    }
    bounds.push((start, i));
    bounds
}

/// The text `text[from..to]` trimmed, with every run of whitespace inside
/// it replaced by one space.
pub fn normalize_range(text: &Vec<char>, from: usize, to: usize) -> (s: String)
    requires
        from <= to <= text.len(),
    ensures
        s@ == normalized(text@.subrange(from as int, to as int)),
{
    let (a, b) = trim_bounds(text, from, to);
    let ghost core = text@.subrange(a as int, b as int);
    let mut s = String::new();
    let mut i: usize = a;
    assert(s@ + collapsed(core) =~= collapsed(core));
    while i < b
        invariant
            a <= i <= b <= text.len(),
            core == text@.subrange(a as int, b as int),
            s@ + collapsed(text@.subrange(i as int, b as int)) == collapsed(core),
        decreases b - i,
    {
        let ghost here = text@.subrange(i as int, b as int);
        let ghost before = s@;
        assert(here.drop_first() =~= text@.subrange(i + 1, b as int));
        let c = text[i];
        assert(here.first() == c);
        if !is_whitespace(c) {
            push_char(&mut s, c);
            assert(before.push(c) + collapsed(here.drop_first()) =~= before + (seq![c] + collapsed(
                here.drop_first(),
            )));
        } else if i + 1 < b && is_whitespace(text[i + 1]) {
            assert(here[1] == text@[i + 1]);
        } else {
            push_char(&mut s, ' ');
            assert(before.push(' ') + collapsed(here.drop_first()) =~= before + (seq![' ']
                + collapsed(here.drop_first())));
        }
        i += 1;
    }
    assert(text@.subrange(b as int, b as int) =~= Seq::<char>::empty());
    assert(s@ + Seq::<char>::empty() =~= s@);
    s
}

} // verus!
