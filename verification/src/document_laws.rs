//! What holds of documents, texts and frames, stated on their parts.

use crate::frame;
use crate::json;
use crate::json::{Json, Tree};
use crate::text;
use vstd::prelude::*;

verus! {

// ---- documents ----

/// A document that is no array and no object says what it holds.
pub proof fn law_scalars_say_what_they_hold(
    b: bool,
    n: u64,
    m: i64,
    float: serde_json::Number,
    text: String,
)
    ensures
        Json::Null@ == Tree::Null,
        Json::Bool(b)@ == Tree::Bool(b),
        Json::Unsigned(n)@ == Tree::Unsigned(n),
        Json::Negative(m)@ == Tree::Negative(m),
        Json::Float(float)@ == Tree::Float(float),
        Json::Text(text)@ == Tree::Text(text@),
{
}

/// An array says what each of its items says, in order, and nothing else.
pub proof fn law_arrays_say_each_item(items: Vec<Json>)
    ensures
        Json::Array(items)@ matches Tree::Array(said) && {
            &&& said.len() == items@.len()
            &&& forall|i: int| 0 <= i < said.len() ==> #[trigger] said[i] == items@[i]@
        },
{
    json::lemma_trees(items@);
}

/// The same of the items alone.
pub proof fn law_items_say_each_item(items: Seq<Json>)
    ensures
        json::trees(items).len() == items.len(),
        forall|i: int| 0 <= i < items.len() ==> #[trigger] json::trees(items)[i] == items[i]@,
{
    json::lemma_trees(items);
}

proof fn lemma_keys(entries: Seq<(String, Json)>, key: Seq<char>)
    ensures
        json::fields(entries).contains_key(key) <==> exists|i: int|
            0 <= i < entries.len() && (#[trigger] entries[i]).0@ == key,
    decreases entries.len(),
{
    if entries.len() > 0 {
        let rest = entries.drop_last();
        lemma_keys(rest, key);
        if exists|i: int| 0 <= i < rest.len() && (#[trigger] rest[i]).0@ == key {
            let i = choose|i: int| 0 <= i < rest.len() && (#[trigger] rest[i]).0@ == key;
            assert(entries[i].0@ == key);
        }
        if exists|i: int| 0 <= i < entries.len() && (#[trigger] entries[i]).0@ == key {
            let i = choose|i: int| 0 <= i < entries.len() && (#[trigger] entries[i]).0@ == key;
            if i < rest.len() {
                assert(rest[i].0@ == key);
            } else {
                assert(entries.last().0@ == key);
            }
        }
        assert(entries[entries.len() - 1] == entries.last());
    }
}

proof fn lemma_last_entry(entries: Seq<(String, Json)>, at: int)
    requires
        0 <= at < entries.len(),
        forall|i: int| at < i < entries.len() ==> (#[trigger] entries[i]).0@ != entries[at].0@,
    ensures
        json::fields(entries)[entries[at].0@] == entries[at].1@,
    decreases entries.len(),
{
    if at < entries.len() - 1 {
        assert(entries[entries.len() - 1].0@ != entries[at].0@);
        lemma_last_entry(entries.drop_last(), at);
    }
}

/// An object has the keys of its entries and no others, and under each the value of the last
/// entry with that key.
pub proof fn law_objects_say_each_entry(entries: Vec<(String, Json)>)
    ensures
        Json::Object(entries)@ matches Tree::Object(said) && {
            &&& forall|key: Seq<char>| #[trigger]
                said.contains_key(key) <==> exists|i: int|
                    0 <= i < entries@.len() && (#[trigger] entries@[i]).0@ == key
            &&& forall|at: int|
                0 <= at < entries@.len() && (forall|i: int|
                    at < i < entries@.len() ==> (#[trigger] entries@[i]).0@ != entries@[at].0@)
                    ==> said[(#[trigger] entries@[at]).0@] == entries@[at].1@
        },
{
    let said = json::fields(entries@);
    assert forall|key: Seq<char>| #[trigger] said.contains_key(key) <==> exists|i: int|
        0 <= i < entries@.len() && (#[trigger] entries@[i]).0@ == key by {
        lemma_keys(entries@, key);
    }
    assert forall|at: int|
        0 <= at < entries@.len() && (forall|i: int|
            at < i < entries@.len() ==> (#[trigger] entries@[i]).0@ != entries@[at].0@) implies said[(
    #[trigger] entries@[at]).0@] == entries@[at].1@ by {
        lemma_last_entry(entries@, at);
    }
}

/// An answer says its document, or its message.
pub proof fn law_answers_say_what_they_hold(doc: Json, message: String, written: String)
    ensures
        json::told(Ok(doc)) == Ok::<Tree, Seq<char>>(doc@),
        json::told(Err(message)) == Err::<Tree, Seq<char>>(message@),
        json::worded(Ok(written)) == Ok::<Seq<char>, Seq<char>>(written@),
        json::worded(Err(message)) == Err::<Seq<char>, Seq<char>>(message@),
{
}

/// What stands under a key of an object is found there, and nothing is found elsewhere.
pub proof fn law_fields_are_what_objects_hold(map: Map<Seq<char>, Tree>, doc: Tree, key: Seq<char>)
    ensures
        map.contains_key(key) ==> json::field(Tree::Object(map), key) == Some(map[key]),
        !map.contains_key(key) ==> json::field(Tree::Object(map), key) is None,
        !(doc is Object) ==> json::field(doc, key) is None,
{
}

/// A text, an integer or a truth value under a key is found as such, and anything else is not.
pub proof fn law_typed_fields_are_fields(
    doc: Tree,
    key: Seq<char>,
    text: Seq<char>,
    n: u64,
    b: bool,
)
    ensures
        json::text_field(doc, key) == Some(text) <==> json::field(doc, key) == Some(
            Tree::Text(text),
        ),
        json::unsigned_field(doc, key) == Some(n) <==> json::field(doc, key) == Some(
            Tree::Unsigned(n),
        ),
        json::bool_field(doc, key) == Some(b) <==> json::field(doc, key) == Some(Tree::Bool(b)),
{
}

/// Writing and reading keep every text, truth value and 64-bit integer, and every array and object
/// of what they keep, as deep as the reader goes, which is 127 levels.
pub proof fn law_what_reads_back(
    b: bool,
    n: u64,
    m: i64,
    text: Seq<char>,
    items: Seq<Tree>,
    map: Map<Seq<char>, Tree>,
    depth: nat,
)
    requires
        m < 0,
        forall|i: int| 0 <= i < items.len() ==> json::reads_back(#[trigger] items[i], depth),
        forall|key: Seq<char>|
            map.contains_key(key) ==> json::reads_back(#[trigger] map[key], depth),
    ensures
        json::reads_back(Tree::Null, depth),
        json::reads_back(Tree::Bool(b), depth),
        json::reads_back(Tree::Unsigned(n), depth),
        json::reads_back(Tree::Negative(m), depth),
        json::reads_back(Tree::Text(text), depth),
        json::reads_back(Tree::Array(items), depth + 1),
        json::reads_back(Tree::Object(map), depth + 1),
        json::depth_limit() == 127,
{
    reveal_with_fuel(json::reads_back, 2);
    assert(((depth + 1) - 1) as nat == depth);
}

// ---- texts ----

/// The blanks are the tab, the line feed, the carriage return and the space among others, and no
/// visible ASCII character; in all, the code points to which Unicode gives `White_Space`.
pub proof fn law_blanks(c: char)
    ensures
        c == '\t' || c == '\n' || c == '\r' || c == ' ' ==> text::blank(c),
        '!' <= c <= '~' ==> !text::blank(c),
        text::blank(c) <==> {
            let point = c as u32;
            ||| 9 <= point <= 13
            ||| point == 32
            ||| point == 133
            ||| point == 160
            ||| point == 5760
            ||| 8192 <= point <= 8202
            ||| point == 8232
            ||| point == 8233
            ||| point == 8239
            ||| point == 8287
            ||| point == 12288
        },
{
}

proof fn lemma_trimmed_front(s: Seq<char>) -> (cut: int)
    ensures
        0 <= cut <= s.len(),
        text::trimmed_front(s) == s.skip(cut),
        forall|i: int| 0 <= i < cut ==> text::blank(#[trigger] s[i]),
        cut < s.len() ==> !text::blank(s[cut]),
    decreases s.len(),
{
    if s.len() > 0 && text::blank(s[0]) {
        let cut = lemma_trimmed_front(s.skip(1)) + 1;
        assert(s.skip(1).skip(cut - 1) =~= s.skip(cut));
        assert forall|i: int| 0 <= i < cut implies text::blank(#[trigger] s[i]) by {
            if i > 0 {
                assert(s.skip(1)[i - 1] == s[i]);
            }
        }
        cut
    } else {
        assert(s.skip(0) =~= s);
        0
    }
}

proof fn lemma_trimmed_back(s: Seq<char>) -> (cut: int)
    ensures
        0 <= cut <= s.len(),
        text::trimmed_back(s) == s.take(cut),
        forall|i: int| cut <= i < s.len() ==> text::blank(#[trigger] s[i]),
        cut > 0 ==> !text::blank(s[cut - 1]),
    decreases s.len(),
{
    if s.len() > 0 && text::blank(s.last()) {
        let cut = lemma_trimmed_back(s.drop_last());
        assert(s.drop_last().take(cut) =~= s.take(cut));
        assert forall|i: int| cut <= i < s.len() implies text::blank(#[trigger] s[i]) by {
            if i < s.len() - 1 {
                assert(s.drop_last()[i] == s[i]);
            }
        }
        cut
    } else {
        assert(s.take(s.len() as int) =~= s);
        s.len() as int
    }
}

/// Trimming takes blanks away at the two ends and nothing else: what stands between blanks, and
/// begins and ends with none, is what remains.
pub proof fn law_trimming_takes_the_blanks_at_the_ends(
    front: Seq<char>,
    middle: Seq<char>,
    back: Seq<char>,
)
    requires
        forall|i: int| 0 <= i < front.len() ==> text::blank(#[trigger] front[i]),
        forall|i: int| 0 <= i < back.len() ==> text::blank(#[trigger] back[i]),
        middle.len() > 0,
        !text::blank(middle[0]),
        !text::blank(middle.last()),
    ensures
        text::trimmed(front + middle + back) == middle,
{
    let s = front + middle + back;
    let cut = lemma_trimmed_front(s);
    assert(s[front.len() as int] == middle[0]);
    if cut < front.len() {
        assert(s[cut] == front[cut]);
    }
    assert(cut == front.len());
    let rest = s.skip(cut);
    assert(rest =~= middle + back);
    let end = lemma_trimmed_back(rest);
    assert(rest[middle.len() - 1] == middle.last());
    if end > middle.len() {
        assert(rest[end - 1] == back[end - 1 - middle.len()]);
    }
    assert(end == middle.len());
    assert(rest.take(end) =~= middle);
}

/// A text of blanks alone is trimmed to nothing.
pub proof fn law_blanks_are_trimmed_to_nothing(s: Seq<char>)
    requires
        forall|i: int| 0 <= i < s.len() ==> text::blank(#[trigger] s[i]),
    ensures
        text::trimmed(s) == Seq::<char>::empty(),
{
    let cut = lemma_trimmed_front(s);
    assert(s.skip(cut) =~= Seq::empty());
    let end = lemma_trimmed_back(s.skip(cut));
    assert(s.skip(cut).take(end) =~= Seq::empty());
}

/// The number that a row of decimal digits stands for.
pub open spec fn value_of(digits: Seq<char>) -> int
    decreases digits.len(),
{
    if digits.len() == 0 {
        0
    } else {
        value_of(digits.drop_last()) * 10 + (digits.last() as int - '0' as int)
    }
}

/// A number in decimal is a row of digits that stands for it, with no zero too many in front.
pub proof fn law_decimal_stands_for_the_number(n: nat)
    ensures
        value_of(text::decimal_of(n)) == n,
        text::decimal_of(n).len() > 0,
        forall|i: int|
            0 <= i < text::decimal_of(n).len() ==> '0' <= #[trigger] text::decimal_of(n)[i] <= '9',
        n > 0 ==> text::decimal_of(n)[0] != '0',
        n < 10 ==> text::decimal_of(n).len() == 1,
    decreases n,
{
    reveal_with_fuel(value_of, 2);
    if n < 10 {
        assert(text::decimal_of(n).drop_last() =~= Seq::empty());
    } else {
        law_decimal_stands_for_the_number(n / 10);
        assert(text::decimal_of(n).drop_last() =~= text::decimal_of(n / 10));
    }
}

/// A text ends with a suffix exactly where it is something with the suffix behind it.
pub proof fn law_suffixes(head: Seq<char>, suffix: Seq<char>, whole: Seq<char>)
    ensures
        text::ends_with(head + suffix, suffix),
        text::ends_with(whole, suffix) ==> whole == whole.take(whole.len() - suffix.len()) + suffix,
{
    assert((head + suffix).skip((head + suffix).len() - suffix.len()) =~= suffix);
    if text::ends_with(whole, suffix) {
        assert(whole =~= whole.take(whole.len() - suffix.len()) + whole.skip(
            whole.len() - suffix.len(),
        ));
    }
}

proof fn lemma_bytes_le_at(a: Seq<u8>, b: Seq<u8>, at: int)
    requires
        0 <= at <= a.len(),
        at <= b.len(),
        forall|i: int| 0 <= i < at ==> #[trigger] a[i] == b[i],
    ensures
        at == a.len() ==> text::bytes_le(a, b),
        at < a.len() && at < b.len() && a[at] < b[at] ==> text::bytes_le(a, b) && !text::bytes_le(
            b,
            a,
        ),
        at < a.len() && at == b.len() ==> !text::bytes_le(a, b),
    decreases at,
{
    if at > 0 {
        assert(a[0] == b[0]);
        assert forall|i: int| 0 <= i < at - 1 implies #[trigger] a.skip(1)[i] == b.skip(1)[i] by {
            assert(a[i + 1] == b[i + 1]);
        }
        lemma_bytes_le_at(a.skip(1), b.skip(1), at - 1);
    }
}

/// Texts are ordered by their bytes: the first byte in which they differ decides, and where there
/// is none, the shorter comes first.
pub proof fn law_texts_are_ordered_by_their_bytes(a: Seq<char>, b: Seq<char>, at: int)
    requires
        ({
            let (x, y) = (vstd::utf8::encode_utf8(a), vstd::utf8::encode_utf8(b));
            &&& 0 <= at <= x.len()
            &&& at <= y.len()
            &&& forall|i: int| 0 <= i < at ==> #[trigger] x[i] == y[i]
        }),
    ensures
        ({
            let (x, y) = (vstd::utf8::encode_utf8(a), vstd::utf8::encode_utf8(b));
            &&& at == x.len() ==> text::text_le(a, b)
            &&& at < x.len() && at == y.len() ==> !text::text_le(a, b)
            &&& at < x.len() && at < y.len() && x[at] < y[at] ==> text::text_le(a, b)
                && !text::text_le(b, a)
        }),
{
    lemma_bytes_le_at(vstd::utf8::encode_utf8(a), vstd::utf8::encode_utf8(b), at);
}

/// Each name of a list is told, in order.
pub proof fn law_names_are_told_in_order(names: Seq<String>)
    ensures
        text::named(names).len() == names.len(),
        forall|i: int| 0 <= i < names.len() ==> #[trigger] text::named(names)[i] == names[i]@,
{
}

// ---- frames ----

/// A request frame holds its kind, what it is given, and nothing else.
pub proof fn law_frames_hold_what_they_are_given(
    verb: Seq<char>,
    args: Tree,
    result: Tree,
    name: Seq<char>,
    txn: u64,
    key: Seq<char>,
)
    ensures
        json::field(frame::call_doc(verb, args), key) == if key == "t"@ {
            Some(Tree::Text("call"@))
        } else if key == "verb"@ {
            Some(Tree::Text(verb))
        } else if key == "args"@ {
            Some(args)
        } else {
            None
        },
        json::field(frame::undo_doc(verb, args, result), key) == if key == "t"@ {
            Some(Tree::Text("undo"@))
        } else if key == "verb"@ {
            Some(Tree::Text(verb))
        } else if key == "args"@ {
            Some(args)
        } else if key == "result"@ {
            Some(result)
        } else {
            None
        },
        json::field(frame::begin_doc(txn), key) == if key == "t"@ {
            Some(Tree::Text("begin"@))
        } else if key == "txn"@ {
            Some(Tree::Unsigned(txn))
        } else {
            None
        },
        json::field(frame::commit_doc(txn), key) == if key == "t"@ {
            Some(Tree::Text("commit"@))
        } else if key == "txn"@ {
            Some(Tree::Unsigned(txn))
        } else {
            None
        },
        json::field(frame::abort_doc(txn), key) == if key == "t"@ {
            Some(Tree::Text("abort"@))
        } else if key == "txn"@ {
            Some(Tree::Unsigned(txn))
        } else {
            None
        },
        json::field(frame::get_doc(name), key) == if key == "t"@ {
            Some(Tree::Text("get"@))
        } else if key == "state"@ {
            Some(Tree::Text(name))
        } else {
            None
        },
        json::field(frame::sub_doc(name), key) == if key == "t"@ {
            Some(Tree::Text("sub"@))
        } else if key == "event"@ {
            Some(Tree::Text(name))
        } else {
            None
        },
        json::field(frame::verbs_doc(), key) == if key == "t"@ {
            Some(Tree::Text("verbs"@))
        } else {
            None
        },
        frame::call_doc(verb, args) is Object,
        frame::undo_doc(verb, args, result) is Object,
        frame::begin_doc(txn) is Object,
        frame::commit_doc(txn) is Object,
        frame::abort_doc(txn) is Object,
        frame::get_doc(name) is Object,
        frame::sub_doc(name) is Object,
        frame::verbs_doc() is Object,
{
    reveal_strlit("t");
    reveal_strlit("verb");
    reveal_strlit("args");
    reveal_strlit("result");
    reveal_strlit("txn");
    reveal_strlit("state");
    reveal_strlit("event");
    assert("verb"@[0] != "args"@[0]);
    assert("t"@.len() == 1 && "verb"@.len() == 4 && "args"@.len() == 4 && "result"@.len() == 6
        && "txn"@.len() == 3 && "state"@.len() == 5 && "event"@.len() == 5);
}

/// A stamped frame is the frame with an id: the id is there, and every other key is as it was.
pub proof fn law_stamped_frames_hold_the_id(doc: Tree, id: u64, key: Seq<char>)
    requires
        doc is Object,
    ensures
        frame::stamped(doc, id) is Object,
        json::field(frame::stamped(doc, id), key) == if key == "id"@ {
            Some(Tree::Unsigned(id))
        } else {
            json::field(doc, key)
        },
{
}

/// A frame replies to the request under an id exactly where its `t` is the text `reply` and its
/// `id` is that id.
pub proof fn law_replies_are_told_by_their_fields(doc: Tree, id: u64)
    ensures
        frame::is_reply_to(doc, id) <==> json::field(doc, "t"@) == Some(Tree::Text("reply"@))
            && json::field(doc, "id"@) == Some(Tree::Unsigned(id)),
{
}

/// A frame is an event exactly where its `t` is the text `event`, whatever else it holds.
pub proof fn law_events_are_told_by_their_kind(doc: Tree)
    ensures
        frame::is_event(doc) <==> json::field(doc, "t"@) == Some(Tree::Text("event"@)),
{
}

/// A reply marked `ok: true` says its value as it stands there, and `null` where it has none.
pub proof fn law_accepting_replies_say_their_value(reply: Tree, value: Tree)
    requires
        json::field(reply, "ok"@) == Some(Tree::Bool(true)),
    ensures
        json::field(reply, "value"@) == Some(value) ==> frame::reply_says(reply) == Ok::<
            Tree,
            Seq<char>,
        >(value),
        json::field(reply, "value"@) is None ==> frame::reply_says(reply) == Ok::<Tree, Seq<char>>(
            Tree::Null,
        ),
{
}

/// Any other reply says its error as it stands there, and `call failed` where there is no text.
pub proof fn law_refusing_replies_say_their_error(reply: Tree, error: Seq<char>)
    requires
        json::field(reply, "ok"@) != Some(Tree::Bool(true)),
    ensures
        json::field(reply, "error"@) == Some(Tree::Text(error)) ==> frame::reply_says(reply)
            == Err::<Tree, Seq<char>>(error),
        !(json::field(reply, "error"@) matches Some(Tree::Text(_))) ==> frame::reply_says(reply)
            == Err::<Tree, Seq<char>>("call failed"@),
{
}

// ---- lines ----

/// The line for a frame is the text that is written for it, with a line feed behind it. A line that
/// carries a frame is that line, holds no other line feed, and says the frame to whoever reads it,
/// where the frame reads back.
pub proof fn law_lines_carry_their_frames(doc: Tree, line: Seq<char>)
    ensures
        frame::written(doc) == json::rendered(doc)->Ok_0.push('\n'),
        frame::carries(line, doc) ==> {
            &&& json::rendered(doc) matches Ok(written)
            &&& line == written.push('\n')
            &&& !written.contains('\n')
            &&& json::reads_back(doc, 127) ==> frame::line_says(line) == Ok::<Tree, Seq<char>>(doc)
        },
{
    if frame::carries(line, doc) {
        let written = json::rendered(doc)->Ok_0;
        if written.contains('\n') {
            let i = choose|i: int| 0 <= i < written.len() && written[i] == '\n';
            assert(line[i] == '\n');
        }
    }
}

/// A text is one line exactly where its only line feed is its last character.
pub proof fn law_one_line(text: Seq<char>)
    ensures
        frame::one_line(text) <==> text.len() > 0 && text.last() == '\n'
            && !text.drop_last().contains('\n'),
{
    if frame::one_line(text) && text.drop_last().contains('\n') {
        let i = choose|i: int| 0 <= i < text.len() - 1 && text.drop_last()[i] == '\n';
        assert(text[i] == '\n');
    }
    if text.len() > 0 && text.last() == '\n' && !text.drop_last().contains('\n') {
        assert forall|i: int| 0 <= i < text.len() - 1 implies text[i] != '\n' by {
            assert(text.drop_last()[i] == text[i]);
        }
    }
}

/// A line of blanks alone says what an empty text says.
pub proof fn law_blank_lines_say_what_nothing_says(line: Seq<char>)
    requires
        forall|i: int| 0 <= i < line.len() ==> text::blank(#[trigger] line[i]),
    ensures
        frame::line_says(line) == json::parsed_text(Seq::empty()),
{
    law_blanks_are_trimmed_to_nothing(line);
}

/// A line says what stands on it, whatever blanks stand round it.
pub proof fn law_lines_say_what_stands_between_blanks(
    front: Seq<char>,
    middle: Seq<char>,
    back: Seq<char>,
)
    requires
        forall|i: int| 0 <= i < front.len() ==> text::blank(#[trigger] front[i]),
        forall|i: int| 0 <= i < back.len() ==> text::blank(#[trigger] back[i]),
        middle.len() > 0,
        !text::blank(middle[0]),
        !text::blank(middle.last()),
    ensures
        frame::line_says(front + middle + back) == json::parsed_text(middle),
{
    law_trimming_takes_the_blanks_at_the_ends(front, middle, back);
}

} // verus!
