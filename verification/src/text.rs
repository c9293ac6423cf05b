//! Text as sequences of characters: the operations on strings that the rest of the library is
//! written and specified with.
use vstd::prelude::*;

verus! {

/// The mathematical value of a string.
pub type Text = Seq<char>;

/// The values of a sequence of strings.
pub open spec fn texts(v: Seq<String>) -> Seq<Text> {
    v.map_values(|s: String| s@)
}

/// Adding a string to a list adds its value to the values.
pub proof fn lemma_texts_push(v: Seq<String>, s: String)
    ensures
        texts(v.push(s)) == texts(v).push(s@),
{
    assert(texts(v.push(s)) =~= texts(v).push(s@));
}

/// The value of an optional string.
pub open spec fn opt_text(o: Option<String>) -> Option<Text> {
    match o {
        Some(s) => Some(s@),
        None => None,
    }
}

/// The value of an optional string slice.
pub open spec fn opt_str(o: Option<&str>) -> Option<Text> {
    match o {
        Some(s) => Some(s@),
        None => None,
    }
}

/// `s` begins with `p`.
pub open spec fn starts_with(s: Text, p: Text) -> bool {
    p.len() <= s.len() && s.subrange(0, p.len() as int) == p
}

/// `p` occurs in `s` at position `i`.
pub open spec fn occurs_at(s: Text, p: Text, i: int) -> bool {
    0 <= i <= s.len() - p.len() && s.subrange(i, i + p.len()) == p
}

/// `p` occurs somewhere in `s`.
pub open spec fn contains_text(s: Text, p: Text) -> bool {
    exists|i: int| occurs_at(s, p, i)
}

/// `std::string::String::push`: the character is added at the end.
pub assume_specification[ std::string::String::push ](s: &mut String, c: char)
    ensures
        final(s)@ == old(s)@.push(c),
;

/// The characters of a string, in order.
pub fn chars_of(s: &str) -> (r: Vec<char>)
    ensures
        r@ == s@,
{
    let mut out: Vec<char> = Vec::new();
    for c in it: s.chars()
        invariant
            it.seq() == s@,
            out@ == s@.take(it.index()),
    {
        out.push(c);
        proof {
            assert(s@.take(it.index() + 1) =~= s@.take(it.index()).push(c));
        }
    }
    proof {
        assert(s@.take(s@.len() as int) =~= s@);
    }
    out
}

/// The string made of the characters `from..to`.
pub fn text_of(chars: &[char], from: usize, to: usize) -> (r: String)
    requires
        from <= to <= chars@.len(),
    ensures
        r@ == chars@.subrange(from as int, to as int),
{
    let mut out = String::new();
    let mut i: usize = from;
    while i < to
        invariant
            from <= i <= to <= chars@.len(),
            out@ == chars@.subrange(from as int, i as int),
        decreases to - i,
    {
        out.push(chars[i]);
        proof {
            assert(chars@.subrange(from as int, i + 1) =~= chars@.subrange(
                from as int,
                i as int,
            ).push(chars@[i as int]));
        }
        i += 1;
    }
    out
}

/// The two strings hold the same characters.
pub fn same(a: &str, b: &str) -> (r: bool)
    ensures
        r == (a@ == b@),
{
    a.to_owned() == b.to_owned()
}

/// The optional string is present and holds the given characters.
pub fn is_text(o: &Option<String>, b: &str) -> (r: bool)
    ensures
        r == (opt_text(*o) == Some(b@)),
{
    match o {
        Some(s) => same(s.as_str(), b),
        None => false,
    }
}

/// `p` occurs in `s` at position `i`.
fn chars_occur_at(s: &[char], p: &[char], i: usize) -> (r: bool)
    ensures
        r == occurs_at(s@, p@, i as int),
{
    if p.len() > s.len() || i > s.len() - p.len() {
        return false;
    }
    let n: usize = s.len();
    let mut k: usize = 0;
    while k < p.len()
        invariant
            n == s@.len(),
            i <= n - p@.len(),
            0 <= k <= p@.len(),
            forall|j: int| 0 <= j < k ==> s@[i + j] == p@[j],
        decreases p@.len() - k,
    {
        if s[i + k] != p[k] {
            proof {
                assert(s@.subrange(i as int, i + p@.len())[k as int] == s@[i + k]);
            }
            return false;
        }
        k += 1;
    }
    proof {
        assert(s@.subrange(i as int, i + p@.len()) =~= p@);
    }
    true
}

/// `s` begins with `p`.
pub fn has_prefix(s: &str, p: &str) -> (r: bool)
    ensures
        r == starts_with(s@, p@),
{
    let sc = chars_of(s);
    let pc = chars_of(p);
    chars_occur_at(&sc, &pc, 0)
}

/// `p` occurs somewhere in `s`.
pub fn has_part(s: &str, p: &str) -> (r: bool)
    ensures
        r == contains_text(s@, p@),
{
    let sc = chars_of(s);
    let pc = chars_of(p);
    if pc.len() > sc.len() {
        return false;
    }
    let last: usize = sc.len() - pc.len();
    let mut i: usize = 0;
    loop
        invariant
            sc@ == s@,
            pc@ == p@,
            last == s@.len() - p@.len(),
            i <= last,
            forall|j: int| 0 <= j < i ==> !occurs_at(s@, p@, j),
        decreases last - i,
    {
        if chars_occur_at(&sc, &pc, i) {
            return true;
        }
        if i == last {
            return false;
        }
        i += 1;
    }
}

/// `s` without its first `n` characters.
pub fn without_first(s: &str, n: usize) -> (r: String)
    requires
        n <= s@.len(),
    ensures
        r@ == s@.subrange(n as int, s@.len() as int),
{
    let sc = chars_of(s);
    text_of(&sc, n, sc.len())
}

/// The first character of `s` is `c`.
pub fn first_is(s: &str, c: char) -> (r: bool)
    ensures
        r == (s@.len() > 0 && s@[0] == c),
{
    let sc = chars_of(s);
    sc.len() > 0 && sc[0] == c
}

/// Some string of the list holds the given characters.
pub fn list_has(list: &[String], s: &str) -> (r: bool)
    ensures
        r == texts(list@).contains(s@),
{
    let mut i: usize = 0;
    while i < list.len()
        invariant
            0 <= i <= list@.len(),
            forall|j: int| 0 <= j < i ==> #[trigger] texts(list@)[j] != s@,
        decreases list@.len() - i,
    {
        if same(list[i].as_str(), s) {
            proof {
                assert(texts(list@)[i as int] == s@);
            }
            return true;
        }
        i += 1;
    }
    false
}

/// A copy of a list of strings.
pub fn copy_list(list: &[String]) -> (r: Vec<String>)
    ensures
        texts(r@) == texts(list@),
{
    let mut out: Vec<String> = Vec::new();
    let mut i: usize = 0;
    while i < list.len()
        invariant
            0 <= i <= list@.len(),
            texts(out@) == texts(list@).take(i as int),
        decreases list@.len() - i,
    {
        proof {
            lemma_texts_push(out@, list@[i as int]);
            assert(texts(list@).take(i + 1) =~= texts(list@).take(i as int).push(list@[i as int]@));
        }
        out.push(list[i].clone());
        i += 1;
    }
    proof {
        assert(texts(list@).take(list@.len() as int) =~= texts(list@));
    }
    out
}

/// A copy of an optional string.
pub fn copy_opt(o: &Option<String>) -> (r: Option<String>)
    ensures
        opt_text(r) == opt_text(*o),
{
    match o {
        Some(s) => Some(s.clone()),
        None => None,
    }
}

/// The string, or the empty one where there is none.
pub open spec fn text_or_empty(o: Option<Text>) -> Text {
    match o {
        Some(s) => s,
        None => Seq::empty(),
    }
}

/// The string, or the empty one where there is none.
pub fn or_empty(o: &Option<String>) -> (r: String)
    ensures
        r@ == text_or_empty(opt_text(*o)),
{
    match o {
        Some(s) => s.clone(),
        None => String::new(),
    }
}

/// The character with an ASCII capital letter made small.
pub open spec fn small_char(c: char) -> char {
    if 'A' <= c <= 'Z' {
        (c as int + 32) as char
    } else {
        c
    }
}

/// The text with the ASCII capital letters made small.
pub open spec fn small_letters(s: Text) -> Text {
    s.map_values(|c: char| small_char(c))
}

/// The text with the ASCII capital letters made small.
pub fn lowered(s: &str) -> (r: String)
    ensures
        r@ == small_letters(s@),
{
    let chars = chars_of(s);
    let mut out = String::new();
    let mut i: usize = 0;
    while i < chars.len()
        invariant
            chars@ == s@,
            0 <= i <= s@.len(),
            out@ == small_letters(s@).take(i as int),
        decreases s@.len() - i,
    {
        let c: char = chars[i];
        let small: char = if 'A' <= c && c <= 'Z' {
            (c as u8 + 32) as char
        } else {
            c
        };
        out.push(small);
        proof {
            assert(small == small_letters(s@)[i as int]);
            assert(small_letters(s@).take(i + 1) =~= small_letters(s@).take(i as int).push(small));
        }
        i += 1;
    }
    proof {
        assert(small_letters(s@).take(s@.len() as int) =~= small_letters(s@));
    }
    out
}

/// What is left of `s` when `p` is taken off its beginning as often as it stands there.
pub open spec fn strip_repeated(s: Text, p: Text) -> Text
    decreases s.len(),
{
    if p.len() > 0 && starts_with(s, p) {
        strip_repeated(s.subrange(p.len() as int, s.len() as int), p)
    } else {
        s
    }
}

/// What is left of `s` when `p` is taken off its beginning as often as it stands there.
pub fn without_prefixes(s: &str, p: &str) -> (r: String)
    ensures
        r@ == strip_repeated(s@, p@),
{
    let n: usize = chars_of(p).len();
    let mut out = s.to_owned();
    while n > 0 && has_prefix(out.as_str(), p)
        invariant
            n == p@.len(),
            strip_repeated(s@, p@) == strip_repeated(out@, p@),
        decreases out@.len(),
    {
        out = without_first(out.as_str(), n);
    }
    out
}

/// Two texts in a row.
pub fn joined2(a: &str, b: &str) -> (r: String)
    ensures
        r@ == a@ + b@,
{
    let mut out = a.to_owned();
    out.append(b);
    out
}

/// Three texts in a row.
pub fn joined3(a: &str, b: &str, c: &str) -> (r: String)
    ensures
        r@ == a@ + b@ + c@,
{
    let mut out = a.to_owned();
    out.append(b);
    out.append(c);
    out
}

/// A text is found where it stands between two others.
pub proof fn lemma_part_is_found(a: Text, p: Text, b: Text)
    ensures
        contains_text(a + p + b, p),
{
    let s = a + p + b;
    assert(s.subrange(a.len() as int, (a.len() + p.len()) as int) =~= p);
    assert(occurs_at(s, p, a.len() as int));
}

/// A text that is found stays found when more follows.
pub proof fn lemma_found_stays(s: Text, p: Text, more: Text)
    requires
        contains_text(s, p),
    ensures
        contains_text(s + more, p),
{
    let i = choose|i: int| occurs_at(s, p, i);
    assert((s + more).subrange(i, i + p.len()) =~= s.subrange(i, i + p.len()));
    assert(occurs_at(s + more, p, i));
}

/// A text is found at the end of another.
pub proof fn lemma_end_is_found(a: Text, p: Text)
    ensures
        contains_text(a + p, p),
{
    lemma_part_is_found(a, p, Seq::empty());
    assert(a + p + Seq::<char>::empty() =~= a + p);
}

/// A text that is found stays found when more stands before it.
pub proof fn lemma_found_behind(before: Text, s: Text, p: Text)
    requires
        contains_text(s, p),
    ensures
        contains_text(before + s, p),
{
    let i = choose|i: int| occurs_at(s, p, i);
    let at = before.len() + i;
    assert((before + s).subrange(at, at + p.len()) =~= s.subrange(i, i + p.len()));
    assert(occurs_at(before + s, p, at));
}

/// Texts can be joined from the left or from the right.
pub proof fn lemma_joined_either_way(a: Text, b: Text, c: Text)
    ensures
        a + b + c == a + (b + c),
        a + Seq::<char>::empty() == a,
        Seq::<char>::empty() + a == a,
{
    assert(a + b + c =~= a + (b + c));
    assert(a + Seq::<char>::empty() =~= a);
    assert(Seq::<char>::empty() + a =~= a);
}

/// The beginning of a text that is found is found.
pub proof fn lemma_found_within(s: Text, p: Text, more: Text)
    requires
        contains_text(s, p + more),
    ensures
        contains_text(s, p),
{
    let i = choose|i: int| occurs_at(s, p + more, i);
    let whole = s.subrange(i, i + (p + more).len());
    assert(whole == p + more);
    assert(s.subrange(i, i + p.len()) =~= p) by {
        assert forall|k: int| 0 <= k < p.len() implies s.subrange(i, i + p.len())[k] == p[k] by {
            assert(whole[k] == (p + more)[k]);
        }
    }
    assert(occurs_at(s, p, i));
}

/// A text that is found stays found when two more follow.
pub proof fn lemma_two_more(s: Text, p: Text, more: Text, most: Text)
    requires
        contains_text(s, p),
    ensures
        contains_text(s + more + most, p),
{
    lemma_found_stays(s, p, more);
    lemma_found_stays(s + more, p, most);
}

/// The end of a text with two more behind it is found in the whole.
pub proof fn lemma_overlap_is_found(a: Text, b: Text, c: Text, d: Text, e: Text)
    ensures
        contains_text(a + (b + c) + d + e, c + d + e),
{
    assert(a + (b + c) + d + e =~= (a + b) + (c + d + e));
    lemma_end_is_found(a + b, c + d + e);
}

} // verus!
