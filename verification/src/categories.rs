//! Sorting threads and messages into categories. A category is a path below an axis; the axes are
//! independent of each other.
use vstd::prelude::*;

use crate::json::{
    json_get, json_str, lemma_array_view, opt_view, parse_json, parsed_value, views, JsonValue,
    JsonView,
};
use crate::parts::{
    join, join_first, law_join_then_split, split, split_at_char, trim, trimmed,
};
use crate::text::{chars_of, lemma_texts_push, same, small_char, small_letters, texts, Text};

verus! {

/// The name of a number of participants.
pub open spec fn participants_name(count: int) -> Text {
    if count <= 1 {
        "1_or_less"@
    } else if count == 2 {
        "2"@
    } else if count <= 5 {
        "3_5"@
    } else if count <= 10 {
        "6_10"@
    } else if count <= 25 {
        "11_25"@
    } else {
        "26_plus"@
    }
}

/// The name of a number of participants.
pub fn participant_bucket(count: usize) -> (r: &'static str)
    ensures
        r@ == participants_name(count as int),
{
    if count <= 1 {
        "1_or_less"
    } else if count == 2 {
        "2"
    } else if count <= 5 {
        "3_5"
    } else if count <= 10 {
        "6_10"
    } else if count <= 25 {
        "11_25"
    } else {
        "26_plus"
    }
}

/// The name of a number of messages.
pub open spec fn volume_name(count: int) -> Text {
    if count <= 0 {
        "0"@
    } else if count <= 9 {
        "1_9"@
    } else if count <= 99 {
        "10_99"@
    } else if count <= 999 {
        "100_999"@
    } else {
        "1000_plus"@
    }
}

/// The name of a number of messages.
pub fn count_bucket(count: i64) -> (r: &'static str)
    ensures
        r@ == volume_name(count as int),
{
    if count <= 0 {
        "0"
    } else if count <= 9 {
        "1_9"
    } else if count <= 99 {
        "10_99"
    } else if count <= 999 {
        "100_999"
    } else {
        "1000_plus"
    }
}

/// The name of the length of a message.
pub open spec fn length_name(len: int) -> Text {
    if len <= 0 {
        "0"@
    } else if len <= 80 {
        "1_80"@
    } else if len <= 280 {
        "81_280"@
    } else {
        "281_plus"@
    }
}

/// The name of the length of a message, in characters.
pub fn body_length_bucket(body: &str) -> (r: &'static str)
    ensures
        r@ == length_name(body@.len() as int),
{
    let len: usize = chars_of(body).len();
    if len == 0 {
        "0"
    } else if len <= 80 {
        "1_80"
    } else if len <= 280 {
        "81_280"
    } else {
        "281_plus"
    }
}

/// The text in small letters, as `str::to_lowercase` gives it.
pub uninterp spec fn lowercase(s: Text) -> Text;

/// Every character is an ASCII character.
pub open spec fn is_ascii_text(s: Text) -> bool {
    forall|i: int| 0 <= i < s.len() ==> (#[trigger] s[i]) as int <= 127
}

/// The character is none of `A` to `Z`.
pub open spec fn is_no_capital(c: char) -> bool {
    !('A' <= c <= 'Z')
}

/// `str::to_lowercase`: what it gives depends on the text alone; of an ASCII text only the letters
/// `A` to `Z` change, into `a` to `z`; whatever the text, none of `A` to `Z` is left.
#[verifier::external_body]
fn to_lowercase(s: &str) -> (r: String)
    ensures
        r@ == lowercase(s@),
        is_ascii_text(s@) ==> r@ == small_letters(s@),
        forall|i: int| 0 <= i < r@.len() ==> is_no_capital(#[trigger] r@[i]),
{
    s.to_lowercase()
}

/// An ASCII letter or digit.
pub open spec fn is_word_char(c: char) -> bool {
    ||| '0' <= c <= '9'
    ||| 'A' <= c <= 'Z'
    ||| 'a' <= c <= 'z'
}

/// The ASCII letters and digits of a text, with an underscore between two of them where anything
/// else stood between them.
pub open spec fn words_joined(s: Text) -> Text
    decreases s.len(),
{
    if s.len() == 0 {
        s
    } else {
        let init = s.drop_last();
        let before = words_joined(init);
        if !is_word_char(s.last()) {
            before
        } else if before.len() > 0 && !is_word_char(init.last()) {
            before.push('_').push(s.last())
        } else {
            before.push(s.last())
        }
    }
}

/// The part of a path that stands for a text in small letters; `unknown` where nothing is left.
pub open spec fn component_text(lower: Text) -> Text {
    if words_joined(lower).len() == 0 {
        "unknown"@
    } else {
        words_joined(lower)
    }
}

/// The part of a path that stands for a text in small letters.
pub fn component_of_lower(lower: &str) -> (r: String)
    ensures
        r@ == component_text(lower@),
{
    let chars = chars_of(lower);
    let mut out = String::new();
    let mut empty = true;
    let mut gap = false;
    let mut i: usize = 0;
    proof {
        assert(out@ =~= words_joined(lower@.take(0)));
    }
    while i < chars.len()
        invariant
            chars@ == lower@,
            0 <= i <= lower@.len(),
            out@ == words_joined(lower@.take(i as int)),
            empty == (out@.len() == 0),
            gap == (i > 0 && !is_word_char(lower@[i - 1])),
        decreases lower@.len() - i,
    {
        let c = chars[i];
        proof {
            assert(lower@.take(i + 1).drop_last() =~= lower@.take(i as int));
            assert(lower@.take(i + 1).last() == c);
            if i > 0 {
                assert(lower@.take(i as int).last() == lower@[i - 1]);
            } else {
                assert(lower@.take(0) =~= Seq::<char>::empty());
            }
        }
        let word = ('0' <= c && c <= '9') || ('A' <= c && c <= 'Z') || ('a' <= c && c <= 'z');
        if word {
            if gap && !empty {
                out.push('_');
            }
            out.push(c);
            empty = false;
        }
        gap = !word;
        i += 1;
    }
    proof {
        assert(lower@.take(lower@.len() as int) =~= lower@);
    }
    if empty {
        "unknown".to_owned()
    } else {
        out
    }
}

/// A text in small letters: `lowercase` gives it, and of an ASCII text nothing but the letters `A`
/// to `Z` changes.
pub open spec fn in_small_letters(s: Text) -> Text {
    if is_ascii_text(s) {
        small_letters(s)
    } else {
        small_letters(lowercase(s))
    }
}

/// The part of a path that stands for a text.
pub open spec fn component(s: Text) -> Text {
    component_text(in_small_letters(trim(s)))
}

/// The part of a path that stands for a text.
pub fn path_component(input: &str) -> (r: String)
    ensures
        r@ == component(input@),
        r@ == component_text(lowercase(trim(input@))),
        is_ascii_text(input@) ==> r@ == component_text(small_letters(trim(input@))),
{
    let text = trimmed(input);
    let lower = to_lowercase(text.as_str());
    proof {
        assert(small_letters(lower@) =~= lower@) by {
            assert forall|i: int| 0 <= i < lower@.len() implies small_char(lower@[i])
                == lower@[i] by {
                assert(is_no_capital(lower@[i]));
            }
        }
        if is_ascii_text(input@) {
            lemma_trim_keeps_ascii(input@);
        }
    }
    component_of_lower(lower.as_str())
}

proof fn lemma_trim_start_keeps_ascii(s: Text)
    requires
        is_ascii_text(s),
    ensures
        is_ascii_text(crate::parts::trim_start(s)),
    decreases s.len(),
{
    if s.len() > 0 && crate::parts::is_white(s[0]) {
        assert forall|i: int| 0 <= i < s.skip(1).len() implies (#[trigger] s.skip(1)[i]) as int
            <= 127 by {
            assert(s.skip(1)[i] == s[i + 1]);
        }
        lemma_trim_start_keeps_ascii(s.skip(1));
    }
}

proof fn lemma_trim_end_keeps_ascii(s: Text)
    requires
        is_ascii_text(s),
    ensures
        is_ascii_text(crate::parts::trim_end(s)),
    decreases s.len(),
{
    if s.len() > 0 && crate::parts::is_white(s.last()) {
        assert forall|i: int| 0 <= i < s.drop_last().len() implies (#[trigger] s.drop_last()[i]) as int
            <= 127 by {
            assert(s.drop_last()[i] == s[i]);
        }
        lemma_trim_end_keeps_ascii(s.drop_last());
    }
}

proof fn lemma_trim_keeps_ascii(s: Text)
    requires
        is_ascii_text(s),
    ensures
        is_ascii_text(trim(s)),
{
    lemma_trim_start_keeps_ascii(s);
    lemma_trim_end_keeps_ascii(crate::parts::trim_start(s));
}

/// A part of a path: words of ASCII letters and digits, with single underscores between them.
pub open spec fn is_component(s: Text) -> bool {
    &&& s.len() > 0
    &&& is_word_char(s[0])
    &&& is_word_char(s.last())
    &&& forall|i: int|
        0 <= i < s.len() ==> is_word_char(#[trigger] s[i]) || (s[i] == '_' && is_word_char(s[i - 1])
            && is_word_char(s[i + 1]))
}

proof fn lemma_words_joined(s: Text)
    ensures
        words_joined(s).len() == 0 || is_component(words_joined(s)),
    decreases s.len(),
{
    if s.len() > 0 {
        let init = s.drop_last();
        let before = words_joined(init);
        lemma_words_joined(init);
        let r = words_joined(s);
        if is_word_char(s.last()) {
            if before.len() == 0 {
                assert(r =~= seq![s.last()]);
            } else if !is_word_char(init.last()) {
                assert(r =~= before + seq!['_', s.last()]);
                assert forall|i: int| 0 <= i < r.len() implies is_word_char(#[trigger] r[i]) || (
                r[i] == '_' && is_word_char(r[i - 1]) && is_word_char(r[i + 1])) by {
                    if i < before.len() {
                        assert(r[i] == before[i]);
                        if before[i] == '_' {
                            assert(r[i - 1] == before[i - 1] && r[i + 1] == before[i + 1]);
                        }
                    } else if i == before.len() {
                        assert(r[i - 1] == before.last());
                        assert(r[i + 1] == s.last());
                    }
                }
            } else {
                assert forall|i: int| 0 <= i < r.len() implies is_word_char(#[trigger] r[i]) || (
                r[i] == '_' && is_word_char(r[i - 1]) && is_word_char(r[i + 1])) by {
                    if i < before.len() {
                        assert(r[i] == before[i]);
                        if before[i] == '_' {
                            assert(r[i - 1] == before[i - 1] && r[i + 1] == before[i + 1]);
                        }
                    }
                }
            }
        }
    }
}

/// A part of a path in small letters.
pub open spec fn is_small_component(s: Text) -> bool {
    &&& is_component(s)
    &&& forall|i: int| 0 <= i < s.len() ==> is_no_capital(#[trigger] s[i])
}

/// What is joined of a text holds no capitals where the text holds none.
proof fn lemma_words_joined_small(s: Text)
    requires
        forall|i: int| 0 <= i < s.len() ==> is_no_capital(#[trigger] s[i]),
    ensures
        forall|i: int|
            0 <= i < words_joined(s).len() ==> is_no_capital(#[trigger] words_joined(s)[i]),
    decreases s.len(),
{
    if s.len() > 0 {
        let init = s.drop_last();
        assert forall|i: int| 0 <= i < init.len() implies is_no_capital(#[trigger] init[i]) by {
            assert(init[i] == s[i]);
        }
        lemma_words_joined_small(init);
        assert(is_no_capital(s[s.len() - 1]));
        let before = words_joined(init);
        let r = words_joined(s);
        assert forall|i: int| 0 <= i < r.len() implies is_no_capital(#[trigger] r[i]) by {
            if i < before.len() {
                assert(r[i] == before[i]);
            }
        }
    }
}

/// Whatever the text, what stands for it is a part of a path: words of `a` to `z` and `0` to `9`,
/// with single underscores between them, and no separator.
pub proof fn law_component_is_a_path_part(s: Text)
    ensures
        is_small_component(component(s)),
        !component(s).contains('/'),
{
    let lower = in_small_letters(trim(s));
    let raw = if is_ascii_text(trim(s)) {
        trim(s)
    } else {
        lowercase(trim(s))
    };
    assert forall|i: int| 0 <= i < lower.len() implies is_no_capital(#[trigger] lower[i]) by {
        assert(lower[i] == small_char(raw[i]));
    }
    lemma_words_joined(lower);
    lemma_words_joined_small(lower);
    let r = component(s);
    reveal_strlit("unknown");
    assert(is_small_component("unknown"@));
    assert forall|i: int| 0 <= i < r.len() implies r[i] != '/' by {
        assert(is_word_char(r[i]) || r[i] == '_');
    }
}

/// The ASCII letters and digits of a text, in their order.
pub open spec fn word_chars(s: Text) -> Text {
    s.filter(|c: char| is_word_char(c))
}

/// Joining keeps every ASCII letter and digit.
proof fn lemma_word_chars_kept(s: Text)
    ensures
        word_chars(words_joined(s)) == word_chars(s),
        words_joined(s).len() == 0 <==> word_chars(s).len() == 0,
    decreases s.len(),
{
    reveal(Seq::filter);
    let word = |c: char| is_word_char(c);
    if s.len() > 0 {
        let init = s.drop_last();
        let before = words_joined(init);
        lemma_word_chars_kept(init);
        if is_word_char(s.last()) {
            assert(before.push(s.last()).drop_last() =~= before);
            assert(before.push('_').drop_last() =~= before);
            assert(before.push('_').push(s.last()).drop_last() =~= before.push('_'));
            assert(before.push('_').filter(word) == before.filter(word));
        }
    }
}

/// What stands for a text keeps its letters and digits, in small letters and in their order; all
/// else is left out, and `unknown` stands for a text that has none.
pub proof fn law_component_keeps_letters_and_digits(s: Text)
    ensures
        word_chars(in_small_letters(trim(s))).len() == 0 ==> component(s) == "unknown"@,
        word_chars(in_small_letters(trim(s))).len() > 0 ==> word_chars(component(s)) == word_chars(
            in_small_letters(trim(s)),
        ),
{
    lemma_word_chars_kept(in_small_letters(trim(s)));
}

proof fn lemma_component_unchanged(s: Text, n: int)
    requires
        is_component(s),
        0 <= n <= s.len(),
    ensures
        words_joined(s.take(n)) == (if n > 0 && s[n - 1] == '_' {
            s.take(n - 1)
        } else {
            s.take(n)
        }),
    decreases n,
{
    if n > 0 {
        lemma_component_unchanged(s, n - 1);
        assert(s.take(n).drop_last() =~= s.take(n - 1));
        assert(s.take(n).last() == s[n - 1]);
        assert(is_word_char(s[n - 1]) || s[n - 1] == '_');
        if n > 1 {
            assert(s.take(n - 1).last() == s[n - 2]);
            if s[n - 2] == '_' {
                assert(is_word_char(s[n - 1]));
                assert(s.take(n) =~= s.take(n - 2).push('_').push(s[n - 1]));
                assert(n - 2 > 0);
            } else {
                assert(is_word_char(s[n - 2]));
            }
        }
        if is_word_char(s[n - 1]) {
            assert(s.take(n) =~= s.take(n - 1).push(s[n - 1]));
        }
    }
}

/// A part of a path in small letters stands for itself.
pub proof fn law_component_stands_for_itself(s: Text)
    requires
        is_small_component(s),
    ensures
        component(s) == s,
{
    assert(!crate::parts::is_white(s[0]));
    assert(!crate::parts::is_white(s.last()));
    assert(trim(s) == s);
    assert(is_ascii_text(s)) by {
        assert forall|i: int| 0 <= i < s.len() implies (#[trigger] s[i]) as int <= 127 by {
            assert(is_word_char(s[i]) || s[i] == '_');
        }
    }
    assert(small_letters(s) =~= s) by {
        assert forall|i: int| 0 <= i < s.len() implies small_char(s[i]) == s[i] by {
            assert(is_no_capital(s[i]));
        }
    }
    lemma_component_unchanged(s, s.len() as int);
    assert(s.take(s.len() as int) =~= s);
}

/// Whatever the text, what stands for it stands for itself.
pub proof fn law_component_of_component(s: Text)
    ensures
        component(component(s)) == component(s),
{
    law_component_is_a_path_part(s);
    law_component_stands_for_itself(component(s));
}

/// The kind that an attachment names: in the first of three fields that it has.
pub open spec fn kind_field(item: JsonView) -> Option<JsonView> {
    match json_get(item, "type"@) {
        Some(v) => Some(v),
        None => match json_get(item, "attachmentType"@) {
            Some(v) => Some(v),
            None => json_get(item, "__typename"@),
        },
    }
}

/// The kind of an attachment; `other` where it names none.
pub open spec fn attachment_kind(item: JsonView) -> Text {
    match json_str(kind_field(item)) {
        Some(s) => component(s),
        None => "other"@,
    }
}

/// The kinds that are told apart.
pub open spec fn known_kind(kind: Text) -> Text {
    if kind == "photo"@ || kind == "video"@ || kind == "audio"@ || kind == "file"@ || kind
        == "share"@ || kind == "sticker"@ || kind == "animated_image"@ {
        kind
    } else {
        "other"@
    }
}

/// The class of some attachments of the given kinds.
pub open spec fn class_of_kinds(kinds: Seq<Text>) -> Text {
    if kinds.len() == 0 {
        "none"@
    } else if exists|i: int| 0 <= i < kinds.len() && #[trigger] kinds[i] != kinds[0] {
        "mixed"@
    } else {
        known_kind(kinds[0])
    }
}

/// The class of a parsed list of attachments; `other` where it is no list.
pub open spec fn class_of_parsed(parsed: Option<JsonView>) -> Text {
    match parsed {
        Some(JsonView::Array(items)) => class_of_kinds(
            items.map_values(|v: JsonView| attachment_kind(v)),
        ),
        _ => "other"@,
    }
}

/// The kind of an attachment.
fn kind_of(item: &JsonValue) -> (r: String)
    ensures
        r@ == attachment_kind(item@),
{
    let named = match item.get("type") {
        Some(v) => Some(v),
        None => match item.get("attachmentType") {
            Some(v) => Some(v),
            None => item.get("__typename"),
        },
    };
    match named {
        Some(v) => match v.as_str() {
            Some(s) => path_component(s),
            None => "other".to_owned(),
        },
        None => "other".to_owned(),
    }
}

/// The kind, where it is one of those that are told apart.
fn known(kind: &str) -> (r: &'static str)
    ensures
        r@ == known_kind(kind@),
{
    if same(kind, "photo") {
        "photo"
    } else if same(kind, "video") {
        "video"
    } else if same(kind, "audio") {
        "audio"
    } else if same(kind, "file") {
        "file"
    } else if same(kind, "share") {
        "share"
    } else if same(kind, "sticker") {
        "sticker"
    } else if same(kind, "animated_image") {
        "animated_image"
    } else {
        "other"
    }
}

/// The class of a parsed list of attachments.
pub fn class_of_attachments(parsed: Option<&JsonValue>) -> (r: &'static str)
    ensures
        r@ == class_of_parsed(opt_view(parsed)),
{
    let items = match parsed {
        Some(JsonValue::Array(items)) => items,
        _ => {
            return "other";
        },
    };
    let ghost kinds = views(items@).map_values(|v: JsonView| attachment_kind(v));
    proof {
        lemma_array_view(*items);
        assert(*parsed->0 == JsonValue::Array(*items));
    }
    if items.len() == 0 {
        return "none";
    }
    let first = kind_of(&items[0]);
    let mut i: usize = 1;
    while i < items.len()
        invariant
            1 <= i <= items@.len(),
            kinds == views(items@).map_values(|v: JsonView| attachment_kind(v)),
            first@ == kinds[0],
            forall|j: int| 0 <= j < i ==> #[trigger] kinds[j] == kinds[0],
            class_of_parsed(opt_view(parsed)) == class_of_kinds(kinds),
        decreases items@.len() - i,
    {
        let kind = kind_of(&items[i]);
        proof {
            assert(kinds[i as int] == kind@);
        }
        if !same(kind.as_str(), first.as_str()) {
            return "mixed";
        }
        i += 1;
    }
    known(first.as_str())
}

/// The class of the attachments in a JSON text.
pub fn attachment_class(raw: &str) -> (r: &'static str)
    ensures
        r@ == class_of_parsed(parsed_value(raw@)),
{
    match parse_json(raw) {
        Ok(value) => class_of_attachments(Some(&value)),
        Err(_) => class_of_attachments(None),
    }
}

/// The parts of a path that hold something.
pub open spec fn path_parts(path: Text) -> Seq<Text> {
    split(path, '/').filter(|part: Text| part.len() > 0)
}

/// The paths that lead down to a path, the path itself the last of them.
pub open spec fn ancestors(path: Text) -> Seq<Text> {
    Seq::new(path_parts(path).len(), |n: int| join(path_parts(path).take(n + 1), "/"@))
}

/// The parts of a path that hold something.
fn parts_of(path: &str) -> (r: Vec<String>)
    ensures
        texts(r@) == path_parts(path@),
{
    let all = split_at_char(path, '/');
    let ghost parts = split(path@, '/');
    let mut out: Vec<String> = Vec::new();
    let mut i: usize = 0;
    proof {
        assert(texts(all@) == parts);
        reveal(Seq::filter);
        assert(parts.take(0) =~= Seq::<Text>::empty());
        assert(texts(out@) =~= parts.take(0).filter(|part: Text| part.len() > 0));
    }
    while i < all.len()
        invariant
            texts(all@) == parts,
            0 <= i <= all@.len(),
            texts(out@) == parts.take(i as int).filter(|part: Text| part.len() > 0),
        decreases all@.len() - i,
    {
        proof {
            assert(all@.len() == parts.len());
            assert(parts[i as int] == all@[i as int]@);
            assert(parts.take(i + 1).drop_last() =~= parts.take(i as int));
            assert(parts.take(i + 1).last() == parts[i as int]);
            reveal(Seq::filter);
        }
        if !all[i].as_str().is_empty() {
            proof {
                lemma_texts_push(out@, all@[i as int]);
            }
            out.push(all[i].clone());
        }
        i += 1;
    }
    proof {
        assert(all@.len() == parts.len());
        assert(parts.take(parts.len() as int) =~= parts);
    }
    out
}

/// The paths that lead down to a path, the path itself the last of them.
pub fn category_ancestors(path: &str) -> (r: Vec<String>)
    ensures
        texts(r@) == ancestors(path@),
{
    let parts = parts_of(path);
    let ghost all = ancestors(path@);
    let mut out: Vec<String> = Vec::new();
    let mut n: usize = 0;
    proof {
        assert(all.len() == parts@.len());
        assert(texts(out@) =~= all.take(0));
    }
    while n < parts.len()
        invariant
            texts(parts@) == path_parts(path@),
            all == ancestors(path@),
            all.len() == parts@.len(),
            0 <= n <= parts@.len(),
            texts(out@) == all.take(n as int),
        decreases parts@.len() - n,
    {
        n += 1;
        let path = join_first(&parts, n, "/");
        proof {
            lemma_texts_push(out@, path);
            assert(all.take(n as int) =~= all.take(n - 1).push(path@));
        }
        out.push(path);
    }
    proof {
        assert(all.take(all.len() as int) =~= all);
    }
    out
}

/// The name of a number of messages tells the bounds that the number lies in.
pub proof fn law_volume_name_tells_the_bounds(count: int)
    ensures
        volume_name(count) == "0"@ <==> count <= 0,
        volume_name(count) == "1_9"@ <==> 1 <= count <= 9,
        volume_name(count) == "10_99"@ <==> 10 <= count <= 99,
        volume_name(count) == "100_999"@ <==> 100 <= count <= 999,
        volume_name(count) == "1000_plus"@ <==> count >= 1000,
{
    reveal_strlit("0");
    reveal_strlit("1_9");
    reveal_strlit("10_99");
    reveal_strlit("100_999");
    reveal_strlit("1000_plus");
    assert("0"@.len() == 1);
    assert("1_9"@.len() == 3);
    assert("10_99"@.len() == 5);
    assert("100_999"@.len() == 7);
    assert("1000_plus"@.len() == 9);
}

/// The name of a number of participants tells the bounds that the number lies in.
pub proof fn law_participants_name_tells_the_bounds(count: int)
    ensures
        participants_name(count) == "1_or_less"@ <==> count <= 1,
        participants_name(count) == "2"@ <==> count == 2,
        participants_name(count) == "3_5"@ <==> 3 <= count <= 5,
        participants_name(count) == "6_10"@ <==> 6 <= count <= 10,
        participants_name(count) == "11_25"@ <==> 11 <= count <= 25,
        participants_name(count) == "26_plus"@ <==> count >= 26,
{
    reveal_strlit("1_or_less");
    reveal_strlit("2");
    reveal_strlit("3_5");
    reveal_strlit("6_10");
    reveal_strlit("11_25");
    reveal_strlit("26_plus");
    assert("1_or_less"@.len() == 9);
    assert("2"@.len() == 1);
    assert("3_5"@.len() == 3);
    assert("6_10"@.len() == 4);
    assert("11_25"@.len() == 5);
    assert("26_plus"@.len() == 7);
}

/// The name of the length of a message tells the bounds that the number of its characters lies in.
pub proof fn law_length_name_tells_the_bounds(len: int)
    ensures
        length_name(len) == "0"@ <==> len <= 0,
        length_name(len) == "1_80"@ <==> 1 <= len <= 80,
        length_name(len) == "81_280"@ <==> 81 <= len <= 280,
        length_name(len) == "281_plus"@ <==> len >= 281,
{
    reveal_strlit("0");
    reveal_strlit("1_80");
    reveal_strlit("81_280");
    reveal_strlit("281_plus");
    assert("0"@.len() == 1);
    assert("1_80"@.len() == 4);
    assert("81_280"@.len() == 6);
    assert("281_plus"@.len() == 8);
}

/// The kind of an attachment is what its field `type` says, whatever the others say; only where it
/// has none, what `attachmentType` says, and only without both, what `__typename` says.
pub proof fn law_attachment_kind_is_the_first_that_is_named(item: JsonView, name: Text)
    ensures
        json_get(item, "type"@) == Some(JsonView::String(name)) ==> attachment_kind(item)
            == component(name),
        json_get(item, "type"@) is None && json_get(item, "attachmentType"@) == Some(
            JsonView::String(name),
        ) ==> attachment_kind(item) == component(name),
        json_get(item, "type"@) is None && json_get(item, "attachmentType"@) is None && json_get(
            item,
            "__typename"@,
        ) == Some(JsonView::String(name)) ==> attachment_kind(item) == component(name),
        json_get(item, "type"@) is None && json_get(item, "attachmentType"@) is None && json_get(
            item,
            "__typename"@,
        ) is None ==> attachment_kind(item) == "other"@,
{
}

/// A message whose attachments are all of one kind is of the class of that kind, where it is one of
/// those that are told apart, and else `other`.
pub proof fn law_attachments_of_one_kind_have_its_class(items: Seq<JsonView>, kind: Text)
    requires
        items.len() > 0,
        forall|i: int| 0 <= i < items.len() ==> attachment_kind(#[trigger] items[i]) == kind,
    ensures
        class_of_parsed(Some(JsonView::Array(items))) == (if seq![
            "photo"@,
            "video"@,
            "audio"@,
            "file"@,
            "share"@,
            "sticker"@,
            "animated_image"@,
        ].contains(kind) {
            kind
        } else {
            "other"@
        }),
{
    let kinds = items.map_values(|v: JsonView| attachment_kind(v));
    assert forall|i: int| 0 <= i < kinds.len() implies #[trigger] kinds[i] == kind by {
        assert(kinds[i] == attachment_kind(items[i]));
    }
    let known = seq![
        "photo"@,
        "video"@,
        "audio"@,
        "file"@,
        "share"@,
        "sticker"@,
        "animated_image"@,
    ];
    assert(known[0] == "photo"@ && known[1] == "video"@ && known[2] == "audio"@ && known[3]
        == "file"@ && known[4] == "share"@ && known[5] == "sticker"@ && known[6]
        == "animated_image"@);
}

/// A message with attachments of two kinds is of the class `mixed`; one without attachments of the
/// class `none`; and what is no list of attachments of the class `other`.
pub proof fn law_attachments_of_several_kinds_are_mixed(items: Seq<JsonView>, i: int, j: int)
    ensures
        0 <= i < items.len() && 0 <= j < items.len() && attachment_kind(items[i])
            != attachment_kind(items[j]) ==> class_of_parsed(Some(JsonView::Array(items)))
            == "mixed"@,
        items.len() == 0 ==> class_of_parsed(Some(JsonView::Array(items))) == "none"@,
        class_of_parsed(None) == "other"@,
        class_of_parsed(Some(JsonView::Null)) == "other"@,
{
    let kinds = items.map_values(|v: JsonView| attachment_kind(v));
    if 0 <= i < items.len() && 0 <= j < items.len() {
        assert(kinds[i] == attachment_kind(items[i]));
        assert(kinds[j] == attachment_kind(items[j]));
    }
}

/// The paths that lead down to one that is made of parts are those of its first part, its first
/// two, and so on, up to the path itself.
pub proof fn law_ancestors_lead_down(parts: Seq<Text>, n: int)
    requires
        forall|i: int|
            0 <= i < parts.len() ==> (#[trigger] parts[i]).len() > 0 && !parts[i].contains('/'),
        0 < n <= parts.len(),
    ensures
        ancestors(join(parts, "/"@)).len() == parts.len(),
        ancestors(join(parts, "/"@))[n - 1] == join(parts.take(n), "/"@),
        ancestors(join(parts, "/"@)).last() == join(parts, "/"@),
{
    reveal_strlit("/");
    assert("/"@ =~= seq!['/']);
    law_join_then_split(parts, '/');
    lemma_all_parts_stay(parts);
    assert(parts.take(parts.len() as int) =~= parts);
}

proof fn lemma_all_parts_stay(parts: Seq<Text>)
    requires
        forall|i: int| 0 <= i < parts.len() ==> (#[trigger] parts[i]).len() > 0,
    ensures
        parts.filter(|part: Text| part.len() > 0) == parts,
    decreases parts.len(),
{
    reveal(Seq::filter);
    if parts.len() > 0 {
        let init = parts.drop_last();
        assert forall|i: int| 0 <= i < init.len() implies (#[trigger] init[i]).len() > 0 by {
            assert(init[i] == parts[i]);
        }
        lemma_all_parts_stay(init);
        assert(parts[parts.len() - 1].len() > 0);
        assert(parts =~= init.push(parts.last()));
    }
}

} // verus!
