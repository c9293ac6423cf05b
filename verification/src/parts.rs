//! Taking text apart and putting it together: separators, lines, white space.
use vstd::prelude::*;

use crate::text::{chars_of, lemma_texts_push, text_of, texts, Text};

verus! {

/// The parts of `s` between the separators: always one more than there are separators.
pub open spec fn split(s: Text, sep: char) -> Seq<Text>
    decreases s.len(),
{
    if s.len() == 0 {
        seq![Seq::<char>::empty()]
    } else {
        let before = split(s.drop_last(), sep);
        if s.last() == sep {
            before.push(Seq::<char>::empty())
        } else {
            before.drop_last().push(before.last().push(s.last()))
        }
    }
}

/// The parts with the separator between each two of them.
pub open spec fn join(parts: Seq<Text>, sep: Text) -> Text
    decreases parts.len(),
{
    if parts.len() == 0 {
        Seq::empty()
    } else if parts.len() == 1 {
        parts[0]
    } else {
        join(parts.drop_last(), sep) + sep + parts.last()
    }
}

/// There is always at least one part.
pub proof fn lemma_split_nonempty(s: Text, sep: char)
    ensures
        split(s, sep).len() > 0,
    decreases s.len(),
{
    if s.len() > 0 {
        lemma_split_nonempty(s.drop_last(), sep);
    }
}

/// Joining the parts with the separator they were split at gives the text back.
pub proof fn law_split_then_join(s: Text, sep: char)
    ensures
        join(split(s, sep), seq![sep]) == s,
    decreases s.len(),
{
    if s.len() > 0 {
        let before = split(s.drop_last(), sep);
        lemma_split_nonempty(s.drop_last(), sep);
        law_split_then_join(s.drop_last(), sep);
        if s.last() == sep {
            assert(split(s, sep).drop_last() =~= before);
            assert(join(split(s, sep), seq![sep]) =~= s);
        } else {
            let parts = split(s, sep);
            assert(parts.drop_last() =~= before.drop_last());
            if before.len() == 1 {
                assert(join(before, seq![sep]) =~= before[0]);
                assert(parts[0] =~= s);
            } else {
                let front = join(before.drop_last(), seq![sep]) + seq![sep];
                assert(front + before.last() == s.drop_last());
                assert(join(parts, seq![sep]) == front + before.last().push(s.last()));
                assert(front + before.last().push(s.last()) =~= (front + before.last()).push(
                    s.last(),
                ));
                assert(s =~= s.drop_last().push(s.last()));
            }
        }
    }
}

/// No part holds the separator.
pub proof fn law_split_parts_hold_no_separator(s: Text, sep: char)
    ensures
        forall|i: int| 0 <= i < split(s, sep).len() ==> !(#[trigger] split(s, sep)[i]).contains(
            sep,
        ),
    decreases s.len(),
{
    if s.len() > 0 {
        let before = split(s.drop_last(), sep);
        lemma_split_nonempty(s.drop_last(), sep);
        law_split_parts_hold_no_separator(s.drop_last(), sep);
        assert forall|i: int| 0 <= i < split(s, sep).len() implies !(#[trigger] split(
            s,
            sep,
        )[i]).contains(sep) by {
            let part = split(s, sep)[i];
            if s.last() == sep {
                if i < before.len() {
                    assert(part == before[i]);
                }
            } else if i == before.len() - 1 {
                assert(!before.last().contains(sep));
                assert(part == before.last().push(s.last()));
                if part.contains(sep) {
                    let k = choose|k: int| 0 <= k < part.len() && part[k] == sep;
                    assert(before.last()[k] == sep);
                }
            } else {
                assert(part == before[i]);
            }
        }
    } else {
        assert(split(s, sep)[0].len() == 0);
    }
}

/// Adding text without a separator lengthens the last part.
pub proof fn lemma_split_extend(s: Text, t: Text, sep: char)
    requires
        !t.contains(sep),
    ensures
        split(s + t, sep) == split(s, sep).drop_last().push(split(s, sep).last() + t),
    decreases t.len(),
{
    lemma_split_nonempty(s, sep);
    if t.len() == 0 {
        assert(s + t =~= s);
        assert(split(s, sep).last() + t =~= split(s, sep).last());
        assert(split(s, sep) =~= split(s, sep).drop_last().push(split(s, sep).last()));
    } else {
        assert forall|k: int| 0 <= k < t.drop_last().len() implies t.drop_last()[k] != sep by {
            assert(t.contains(t[k]));
        }
        lemma_split_extend(s, t.drop_last(), sep);
        assert(t.contains(t.last()));
        assert((s + t).drop_last() =~= s + t.drop_last());
        assert(split(s, sep).last() + t =~= (split(s, sep).last() + t.drop_last()).push(t.last()));
        assert(split(s + t, sep) =~= split(s, sep).drop_last().push(split(s, sep).last() + t));
    }
}

/// Splitting what was joined gives the parts back, where none of them holds the separator.
pub proof fn law_join_then_split(parts: Seq<Text>, sep: char)
    requires
        parts.len() > 0,
        forall|i: int| 0 <= i < parts.len() ==> !(#[trigger] parts[i]).contains(sep),
    ensures
        split(join(parts, seq![sep]), sep) == parts,
    decreases parts.len(),
{
    let last = parts.last();
    assert(!parts[parts.len() - 1].contains(sep));
    if parts.len() == 1 {
        lemma_split_extend(Seq::empty(), last, sep);
        assert(Seq::<char>::empty() + last =~= last);
        assert(split(Seq::<char>::empty(), sep).drop_last() =~= Seq::<Text>::empty());
        assert(split(last, sep) =~= parts);
    } else {
        let init = parts.drop_last();
        assert forall|i: int| 0 <= i < init.len() implies !(#[trigger] init[i]).contains(sep) by {
            assert(init[i] == parts[i]);
        }
        law_join_then_split(init, sep);
        let base = join(init, seq![sep]) + seq![sep];
        assert(base.drop_last() =~= join(init, seq![sep]));
        lemma_split_extend(base, last, sep);
        assert(split(base, sep).drop_last() =~= init);
        assert(Seq::<char>::empty() + last =~= last);
        assert(split(base + last, sep) =~= parts);
    }
}

/// The parts of `s` between the separators.
pub fn split_at_char(s: &str, sep: char) -> (r: Vec<String>)
    ensures
        texts(r@) == split(s@, sep),
{
    let chars = chars_of(s);
    let mut out: Vec<String> = Vec::new();
    let mut part = String::new();
    let mut i: usize = 0;
    proof {
        assert(texts(out@).push(part@) =~= split(s@.take(0), sep));
    }
    while i < chars.len()
        invariant
            chars@ == s@,
            0 <= i <= s@.len(),
            texts(out@).push(part@) == split(s@.take(i as int), sep),
        decreases s@.len() - i,
    {
        let c: char = chars[i];
        proof {
            assert(s@.take(i + 1).drop_last() =~= s@.take(i as int));
            assert(s@.take(i + 1).last() == c);
            lemma_texts_push(out@, part);
            assert(texts(out@).push(part@).drop_last() =~= texts(out@));
        }
        if c == sep {
            out.push(part);
            part = String::new();
        } else {
            part.push(c);
        }
        i += 1;
    }
    proof {
        assert(s@.take(s@.len() as int) =~= s@);
        lemma_texts_push(out@, part);
    }
    out.push(part);
    out
}

/// The first `n` parts with the separator between each two of them.
pub fn join_first(parts: &[String], n: usize, sep: &str) -> (r: String)
    requires
        n <= parts@.len(),
    ensures
        r@ == join(texts(parts@).take(n as int), sep@),
{
    let mut out = String::new();
    let ghost all = texts(parts@);
    let mut i: usize = 0;
    while i < n
        invariant
            all == texts(parts@),
            0 <= i <= n <= parts@.len(),
            out@ == join(all.take(i as int), sep@),
        decreases n - i,
    {
        proof {
            assert(all.take(i + 1).drop_last() =~= all.take(i as int));
            assert(all.take(i + 1).last() == parts@[i as int]@);
        }
        let ghost before = out@;
        if i > 0 {
            out.append(sep);
        }
        out.append(parts[i].as_str());
        proof {
            if i == 0 {
                assert(out@ =~= join(all.take(1), sep@));
            } else {
                assert(out@ =~= join(all.take(i + 1), sep@));
            }
        }
        i += 1;
    }
    out
}

/// All parts with the separator between each two of them.
pub fn join_all(parts: &[String], sep: &str) -> (r: String)
    ensures
        r@ == join(texts(parts@), sep@),
{
    proof {
        assert(texts(parts@).take(parts@.len() as int) =~= texts(parts@));
    }
    join_first(parts, parts.len(), sep)
}

/// A character of the Unicode property White_Space.
pub open spec fn is_white(c: char) -> bool {
    let n = c as int;
    ||| 0x09 <= n <= 0x0d
    ||| n == 0x20
    ||| n == 0x85
    ||| n == 0xa0
    ||| n == 0x1680
    ||| 0x2000 <= n <= 0x200a
    ||| n == 0x2028
    ||| n == 0x2029
    ||| n == 0x202f
    ||| n == 0x205f
    ||| n == 0x3000
}

/// `s` without the white space at its beginning.
pub open spec fn trim_start(s: Text) -> Text
    decreases s.len(),
{
    if s.len() > 0 && is_white(s[0]) {
        trim_start(s.skip(1))
    } else {
        s
    }
}

/// `s` without the white space at its end.
pub open spec fn trim_end(s: Text) -> Text
    decreases s.len(),
{
    if s.len() > 0 && is_white(s.last()) {
        trim_end(s.drop_last())
    } else {
        s
    }
}

/// `s` without the white space at both ends.
pub open spec fn trim(s: Text) -> Text {
    trim_end(trim_start(s))
}

fn char_is_white(c: char) -> (r: bool)
    ensures
        r == is_white(c),
{
    let n: u32 = c as u32;
    (0x09 <= n && n <= 0x0d) || n == 0x20 || n == 0x85 || n == 0xa0 || n == 0x1680 || (0x2000 <= n
        && n <= 0x200a) || n == 0x2028 || n == 0x2029 || n == 0x202f || n == 0x205f || n == 0x3000
}

/// The number of white-space characters at the beginning.
fn leading_white(chars: &[char]) -> (r: usize)
    ensures
        r <= chars@.len(),
        trim_start(chars@) == chars@.skip(r as int),
{
    let mut i: usize = 0;
    proof {
        assert(chars@.skip(0) =~= chars@);
    }
    while i < chars.len() && char_is_white(chars[i])
        invariant
            0 <= i <= chars@.len(),
            trim_start(chars@) == trim_start(chars@.skip(i as int)),
        ensures
            0 <= i <= chars@.len(),
            trim_start(chars@) == trim_start(chars@.skip(i as int)),
            i < chars@.len() ==> !is_white(chars@[i as int]),
        decreases chars@.len() - i,
    {
        proof {
            assert(chars@.skip(i as int).skip(1) =~= chars@.skip(i + 1));
        }
        i += 1;
    }
    i
}

/// The number of characters that stay when the white space at the end is taken off.
fn without_trailing_white(chars: &[char]) -> (r: usize)
    ensures
        r <= chars@.len(),
        trim_end(chars@) == chars@.take(r as int),
{
    let mut n: usize = chars.len();
    proof {
        assert(chars@.take(n as int) =~= chars@);
    }
    while n > 0 && char_is_white(chars[n - 1])
        invariant
            0 <= n <= chars@.len(),
            trim_end(chars@) == trim_end(chars@.take(n as int)),
        ensures
            0 <= n <= chars@.len(),
            trim_end(chars@) == trim_end(chars@.take(n as int)),
            n > 0 ==> !is_white(chars@[n - 1]),
        decreases n,
    {
        proof {
            assert(chars@.take(n as int).drop_last() =~= chars@.take(n - 1));
        }
        n -= 1;
    }
    n
}

/// `s` without the white space at its beginning.
pub fn trimmed_start(s: &str) -> (r: String)
    ensures
        r@ == trim_start(s@),
{
    let chars = chars_of(s);
    let from: usize = leading_white(&chars);
    text_of(&chars, from, chars.len())
}

/// `s` without the white space at its end.
pub fn trimmed_end(s: &str) -> (r: String)
    ensures
        r@ == trim_end(s@),
{
    let chars = chars_of(s);
    let to: usize = without_trailing_white(&chars);
    text_of(&chars, 0, to)
}

/// `s` without the white space at both ends.
pub fn trimmed(s: &str) -> (r: String)
    ensures
        r@ == trim(s@),
{
    trimmed_end(trimmed_start(s).as_str())
}

/// One line without its line feed, and without the carriage return that stood before it.
pub open spec fn line_text(part: Text) -> Text {
    if part.len() > 0 && part.last() == '\r' {
        part.drop_last()
    } else {
        part
    }
}

/// The lines of a text. A line ends with a line feed, which a carriage return may precede; the
/// last line needs no line feed, and keeps its carriage return where it has none.
pub open spec fn lines(s: Text) -> Seq<Text> {
    let parts = split(s, '\n');
    let ended = Seq::new((parts.len() - 1) as nat, |i: int| line_text(parts[i]));
    if parts.last().len() == 0 {
        ended
    } else {
        ended.push(parts.last())
    }
}

/// The lines of a text.
pub fn text_lines(s: &str) -> (r: Vec<String>)
    ensures
        texts(r@) == lines(s@),
{
    let mut parts = split_at_char(s, '\n');
    let ghost all = split(s@, '\n');
    proof {
        lemma_split_nonempty(s@, '\n');
        assert(parts@.len() == texts(parts@).len());
    }
    let n: usize = parts.len() - 1;
    let mut out: Vec<String> = Vec::new();
    let ghost ended = Seq::new((all.len() - 1) as nat, |i: int| line_text(all[i]));
    let mut i: usize = 0;
    proof {
        assert(texts(out@) =~= ended.take(0));
    }
    while i < n
        invariant
            0 <= i <= n,
            n == parts@.len() - 1,
            texts(parts@) == all,
            all.len() == n + 1,
            ended == Seq::new((all.len() - 1) as nat, |i: int| line_text(all[i])),
            texts(out@) == ended.take(i as int),
        decreases n - i,
    {
        let chars = chars_of(parts[i].as_str());
        let mut to: usize = chars.len();
        if to > 0 && chars[to - 1] == '\r' {
            to -= 1;
        }
        let line = text_of(&chars, 0, to);
        proof {
            assert(texts(parts@)[i as int] == parts@[i as int]@);
            assert(line@ =~= line_text(all[i as int]));
            lemma_texts_push(out@, line);
            assert(ended.take(i + 1) =~= ended.take(i as int).push(line@));
        }
        out.push(line);
        i += 1;
    }
    proof {
        assert(ended.take(n as int) =~= ended);
        assert(texts(parts@)[n as int] == parts@[n as int]@);
    }
    let last = parts[n].clone();
    if !last.as_str().is_empty() {
        proof {
            lemma_texts_push(out@, last);
        }
        out.push(last);
    }
    out
}

/// White space is taken off the beginning of a text, all of it and nothing else.
pub proof fn law_white_space_is_taken_off_the_beginning(s: Text)
    ensures
        trim_start(s).len() <= s.len(),
        trim_start(s) == s.skip(s.len() - trim_start(s).len()),
        forall|i: int| 0 <= i < s.len() - trim_start(s).len() ==> is_white(#[trigger] s[i]),
        trim_start(s).len() > 0 ==> !is_white(trim_start(s)[0]),
    decreases s.len(),
{
    if s.len() > 0 && is_white(s[0]) {
        let rest = s.skip(1);
        law_white_space_is_taken_off_the_beginning(rest);
        let k = rest.len() - trim_start(rest).len();
        assert(rest.skip(k) =~= s.skip(k + 1));
        assert forall|i: int| 0 <= i < k + 1 implies is_white(#[trigger] s[i]) by {
            if i > 0 {
                assert(rest[i - 1] == s[i]);
            }
        }
    } else {
        assert(s.skip(0) =~= s);
    }
}

/// White space is taken off the end of a text, all of it and nothing else.
pub proof fn law_white_space_is_taken_off_the_end(s: Text)
    ensures
        trim_end(s).len() <= s.len(),
        trim_end(s) == s.take(trim_end(s).len() as int),
        forall|i: int| trim_end(s).len() <= i < s.len() ==> is_white(#[trigger] s[i]),
        trim_end(s).len() > 0 ==> !is_white(trim_end(s).last()),
    decreases s.len(),
{
    if s.len() > 0 && is_white(s.last()) {
        let init = s.drop_last();
        law_white_space_is_taken_off_the_end(init);
        let k = trim_end(init).len() as int;
        assert(init.take(k) =~= s.take(k));
        assert forall|i: int| k <= i < s.len() implies is_white(#[trigger] s[i]) by {
            if i < init.len() {
                assert(init[i] == s[i]);
            }
        }
    } else {
        assert(s.take(s.len() as int) =~= s);
    }
}

/// A text that neither begins nor ends with white space is what is left when white space is taken
/// off both ends of it with white space around.
pub proof fn law_white_space_around_does_not_count(before: Text, s: Text, after: Text)
    requires
        s.len() > 0,
        !is_white(s[0]),
        !is_white(s.last()),
        forall|i: int| 0 <= i < before.len() ==> is_white(#[trigger] before[i]),
        forall|i: int| 0 <= i < after.len() ==> is_white(#[trigger] after[i]),
    ensures
        trim(before + s + after) == s,
        trim_end(s + after) == s,
{
    lemma_trim_start_white(before, s + after);
    assert(before + s + after =~= before + (s + after));
    assert((s + after)[0] == s[0]);
    assert(trim_start(s + after) == s + after);
    lemma_trim_end_white(s, after);
}

proof fn lemma_trim_start_white(before: Text, s: Text)
    requires
        forall|i: int| 0 <= i < before.len() ==> is_white(#[trigger] before[i]),
    ensures
        trim_start(before + s) == trim_start(s),
    decreases before.len(),
{
    if before.len() > 0 {
        assert(is_white(before[0]));
        assert((before + s)[0] == before[0]);
        assert((before + s).skip(1) =~= before.skip(1) + s);
        assert forall|i: int| 0 <= i < before.skip(1).len() implies is_white(
            #[trigger] before.skip(1)[i],
        ) by {
            assert(before.skip(1)[i] == before[i + 1]);
        }
        lemma_trim_start_white(before.skip(1), s);
    } else {
        assert(before + s =~= s);
    }
}

/// White space behind a text that does not end with any is taken off.
pub proof fn lemma_trim_end_white(s: Text, after: Text)
    requires
        s.len() > 0,
        !is_white(s.last()),
        forall|i: int| 0 <= i < after.len() ==> is_white(#[trigger] after[i]),
    ensures
        trim_end(s + after) == s,
    decreases after.len(),
{
    if after.len() > 0 {
        assert(is_white(after[after.len() - 1]));
        assert((s + after).last() == after.last());
        assert((s + after).drop_last() =~= s + after.drop_last());
        assert forall|i: int| 0 <= i < after.drop_last().len() implies is_white(
            #[trigger] after.drop_last()[i],
        ) by {
            assert(after.drop_last()[i] == after[i]);
        }
        lemma_trim_end_white(s, after.drop_last());
    } else {
        assert(s + after =~= s);
    }
}

/// Lines that are written one below the other are read back as they are, with or without a line
/// feed behind the last one.
pub proof fn law_written_lines_read_back(all: Seq<Text>)
    requires
        all.len() > 0,
        forall|i: int|
            0 <= i < all.len() ==> (#[trigger] all[i]).len() > 0 && !all[i].contains('\n')
                && all[i].last() != '\r',
    ensures
        lines(join(all, seq!['\n'])) == all,
        lines(join(all, seq!['\n']) + seq!['\n']) == all,
{
    let text = join(all, seq!['\n']);
    law_join_then_split(all, '\n');
    assert(all[all.len() - 1].len() > 0);
    assert(lines(text) =~= all);
    let ended = text + seq!['\n'];
    assert(ended.drop_last() =~= text);
    assert(ended.last() == '\n');
    let parts = split(ended, '\n');
    assert(parts == all.push(Seq::<char>::empty()));
    assert(lines(ended) =~= all) by {
        assert forall|i: int| 0 <= i < all.len() implies line_text(#[trigger] parts[i])
            == all[i] by {
            assert(parts[i] == all[i]);
        }
    }
}

} // verus!
