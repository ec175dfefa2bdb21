//! How the text of a raw state is cut into its parts, and what is read of them.

use vstd::prelude::*;

use crate::document::read;
use crate::error::StateFailure;
use crate::json::Json;
use crate::state::raw::{
    entries, instance_value, instance_values, instances_under, is_blank, nested_under, once, opener,
    outlined, outlined_with, parts, resource_value, resource_values, resources_under, state_value,
    unopened, value_under, Outline,
};

verus! {

/// A character that is nothing but itself: no quote, no bracket, and nothing that separates parts.
pub open spec fn is_bare(c: char) -> bool {
    c != '"' && c != '[' && c != ']' && c != '{' && c != '}' && c != ',' && c != ':'
}

/// What can stand between quotes: no quote and no backslash, but for a backslash with whatever it
/// escapes.
pub open spec fn is_quotable(text: Seq<char>) -> bool
    decreases text.len(),
{
    if text.len() == 0 {
        true
    } else if text.last() != '"' && text.last() != '\\' && is_quotable(text.drop_last()) {
        true
    } else {
        text.len() >= 2 && text[text.len() - 2] == '\\' && is_quotable(
            text.drop_last().drop_last(),
        )
    }
}

/// A text of bare characters; a loose one may have commas and colons.
pub open spec fn is_run(text: Seq<char>, loose: bool) -> bool {
    forall|i: int|
        0 <= i < text.len() ==> is_bare(#[trigger] text[i]) || (loose && (text[i] == ',' || text[i]
            == ':'))
}

/// `text` is `inner` in quotes.
pub open spec fn is_in_quotes(text: Seq<char>, inner: Seq<char>) -> bool {
    is_quotable(inner) && text == seq!['"'] + inner + seq!['"']
}

/// `text` is `a` and then `b`.
pub open spec fn is_in_two(text: Seq<char>, a: Seq<char>, b: Seq<char>) -> bool {
    text == a + b
}

/// `text` is `inner` in brackets, of whichever sort.
pub open spec fn is_in_brackets(text: Seq<char>, c: char, inner: Seq<char>, d: char) -> bool {
    (c == '[' || c == '{') && (d == ']' || d == '}') && text == seq![c] + inner + seq![d]
}

/// A text in which quotes and brackets are closed, built up in `n` steps; a loose one may separate
/// parts outside of its brackets.
pub open spec fn is_closed(text: Seq<char>, loose: bool, n: nat) -> bool
    decreases n,
{
    ||| is_run(text, loose)
    ||| exists|inner: Seq<char>| #[trigger] is_in_quotes(text, inner)
    ||| n > 0 && exists|a: Seq<char>, b: Seq<char>| #[trigger]
        is_in_two(text, a, b) && is_closed(a, loose, (n - 1) as nat) && is_closed(
            b,
            loose,
            (n - 1) as nat,
        )
    ||| n > 0 && exists|c: char, inner: Seq<char>, d: char| #[trigger]
        is_in_brackets(text, c, inner, d) && is_closed(inner, true, (n - 1) as nat)
}

spec fn outlined_from(outline: Outline, text: Seq<char>) -> Outline
    decreases text.len(),
{
    if text.len() == 0 {
        outline
    } else {
        outlined_with(outlined_from(outline, text.drop_last()), text.last())
    }
}

proof fn outlined_on(outline: Outline, a: Seq<char>, b: Seq<char>)
    ensures
        outlined_from(outline, a + b) == outlined_from(outlined_from(outline, a), b),
    decreases b.len(),
{
    if b.len() > 0 {
        outlined_on(outline, a, b.drop_last());
        assert((a + b).drop_last() =~= a + b.drop_last());
        assert((a + b).last() == b.last());
    } else {
        assert(a + b =~= a);
    }
}

proof fn outlined_whole(text: Seq<char>)
    ensures
        outlined(text) == outlined_from(unopened(), text),
    decreases text.len(),
{
    if text.len() > 0 {
        outlined_whole(text.drop_last());
    }
}

proof fn one_more(outline: Outline, c: char)
    ensures
        outlined_from(outline, seq![c]) == outlined_with(outline, c),
{
    assert(seq![c].drop_last() =~= Seq::<char>::empty());
    assert(outlined_from(outline, seq![c].drop_last()) == outline);
}

proof fn quoted_stays(outline: Outline, text: Seq<char>)
    requires
        outline.depth >= 1,
        outline.quoted,
        !outline.escaped,
        is_quotable(text),
    ensures
        outlined_from(outline, text) == (Outline { part: outline.part + text, ..outline }),
    decreases text.len(),
{
    if text.len() == 0 {
        assert(outline.part + text =~= outline.part);
    } else if text.last() != '"' && text.last() != '\\' && is_quotable(text.drop_last()) {
        quoted_stays(outline, text.drop_last());
        assert((outline.part + text.drop_last()).push(text.last()) =~= outline.part + text);
    } else {
        let rest = text.drop_last();
        let front = rest.drop_last();
        quoted_stays(outline, front);
        assert(rest.last() == '\\');
        let after = outlined_from(outline, rest);
        assert(after.part =~= (outline.part + front).push('\\'));
        assert(after.escaped && after.quoted);
        assert(after.part.push(text.last()) =~= outline.part + text);
    }
}

proof fn run_stays(outline: Outline, text: Seq<char>, loose: bool)
    requires
        outline.depth >= 1,
        loose ==> outline.depth >= 2,
        !outline.quoted,
        is_run(text, loose),
    ensures
        outlined_from(outline, text) == (Outline { part: outline.part + text, ..outline }),
    decreases text.len(),
{
    if text.len() > 0 {
        let rest = text.drop_last();
        assert(text[text.len() - 1] == text.last());
        assert forall|i: int| 0 <= i < rest.len() implies is_bare(#[trigger] rest[i]) || (loose && (
        rest[i] == ',' || rest[i] == ':')) by {
            assert(rest[i] == text[i]);
        }
        run_stays(outline, rest, loose);
        assert((outline.part + rest).push(text.last()) =~= outline.part + text);
    } else {
        assert(outline.part + text =~= outline.part);
    }
}

proof fn string_stays(outline: Outline, inner: Seq<char>)
    requires
        outline.depth >= 1,
        !outline.quoted,
        !outline.escaped,
        is_quotable(inner),
    ensures
        outlined_from(outline, seq!['"'] + inner + seq!['"']) == (Outline {
            part: outline.part + (seq!['"'] + inner + seq!['"']),
            ..outline
        }),
{
    let open = outlined_with(outline, '"');
    one_more(outline, '"');
    quoted_stays(open, inner);
    let held = outlined_from(open, inner);
    one_more(held, '"');
    outlined_on(outline, seq!['"'], inner);
    outlined_on(outline, seq!['"'] + inner, seq!['"']);
    assert(outlined_with(held, '"').part =~= outline.part + (seq!['"'] + inner + seq!['"']));
}

proof fn brackets_stay(outline: Outline, c: char, inner: Seq<char>, d: char, held: Outline)
    requires
        outline.depth >= 1,
        !outline.quoted,
        !outline.escaped,
        c == '[' || c == '{',
        d == ']' || d == '}',
        held == outlined_from(outlined_with(outline, c), inner),
        held == (Outline {
            part: outlined_with(outline, c).part + inner,
            ..outlined_with(outline, c)
        }),
    ensures
        outlined_from(outline, seq![c] + inner + seq![d]) == (Outline {
            part: outline.part + (seq![c] + inner + seq![d]),
            ..outline
        }),
{
    one_more(outline, c);
    one_more(held, d);
    outlined_on(outline, seq![c], inner);
    outlined_on(outline, seq![c] + inner, seq![d]);
    assert(outlined_with(held, d).part =~= outline.part + (seq![c] + inner + seq![d]));
}

proof fn closed_stays(outline: Outline, text: Seq<char>, loose: bool, n: nat)
    requires
        outline.depth >= 1,
        loose ==> outline.depth >= 2,
        !outline.quoted,
        !outline.escaped,
        is_closed(text, loose, n),
    ensures
        outlined_from(outline, text) == (Outline { part: outline.part + text, ..outline }),
    decreases n,
{
    if is_run(text, loose) {
        run_stays(outline, text, loose);
    } else if exists|inner: Seq<char>| #[trigger] is_in_quotes(text, inner) {
        let inner = choose|inner: Seq<char>| #[trigger] is_in_quotes(text, inner);
        string_stays(outline, inner);
    } else if exists|a: Seq<char>, b: Seq<char>| #[trigger]
        is_in_two(text, a, b) && is_closed(a, loose, (n - 1) as nat) && is_closed(
            b,
            loose,
            (n - 1) as nat,
        ) {
        let (a, b) = choose|a: Seq<char>, b: Seq<char>| #[trigger]
            is_in_two(text, a, b) && is_closed(a, loose, (n - 1) as nat) && is_closed(
                b,
                loose,
                (n - 1) as nat,
            );
        closed_stays(outline, a, loose, (n - 1) as nat);
        closed_stays(outlined_from(outline, a), b, loose, (n - 1) as nat);
        outlined_on(outline, a, b);
        assert((outline.part + a) + b =~= outline.part + text);
    } else {
        let (c, inner, d) = choose|c: char, inner: Seq<char>, d: char| #[trigger]
            is_in_brackets(text, c, inner, d) && is_closed(inner, true, (n - 1) as nat);
        let open = outlined_with(outline, c);
        closed_stays(open, inner, true, (n - 1) as nat);
        brackets_stay(outline, c, inner, d, outlined_from(open, inner));
    }
}

/// Some parts, with a character after each but the last.
pub open spec fn spelled(list: Seq<Seq<char>>, separators: Seq<char>) -> Seq<char>
    decreases list.len(),
{
    if list.len() == 0 {
        Seq::empty()
    } else if list.len() == 1 {
        list[0]
    } else {
        spelled(list.drop_last(), separators) + seq![separators[list.len() - 2]] + list.last()
    }
}

proof fn bare_outside(text: Seq<char>, outline: Outline)
    requires
        forall|i: int| 0 <= i < text.len() ==> is_bare(#[trigger] text[i]),
        outline.depth == 0,
        !outline.quoted,
    ensures
        outlined_from(outline, text) == outline,
    decreases text.len(),
{
    if text.len() > 0 {
        let rest = text.drop_last();
        assert(text[text.len() - 1] == text.last());
        assert forall|i: int| 0 <= i < rest.len() implies is_bare(#[trigger] rest[i]) by {
            assert(rest[i] == text[i]);
        }
        bare_outside(rest, outline);
    }
}

proof fn parts_are_cut(outline: Outline, list: Seq<Seq<char>>, separators: Seq<char>, n: nat)
    requires
        outline.depth == 1,
        !outline.quoted,
        !outline.escaped,
        outline.parts.len() == 0,
        outline.part.len() == 0,
        list.len() > 0,
        separators.len() + 1 >= list.len(),
        forall|i: int| 0 <= i < list.len() ==> is_closed(#[trigger] list[i], false, n),
        forall|i: int|
            0 <= i < separators.len() ==> (#[trigger] separators[i] == ',' || separators[i] == ':'),
    ensures
        outlined_from(outline, spelled(list, separators)) == (Outline {
            parts: list.drop_last(),
            part: list.last(),
            ..outline
        }),
    decreases list.len(),
{
    if list.len() == 1 {
        assert(is_closed(list[0], false, n));
        closed_stays(outline, list[0], false, n);
        assert(outline.part + list[0] =~= list.last());
        assert(list.drop_last() =~= outline.parts);
    } else {
        let rest = list.drop_last();
        let last = list.last();
        let c = separators[list.len() - 2];
        assert(c == ',' || c == ':');
        assert forall|i: int| 0 <= i < rest.len() implies is_closed(
            #[trigger] rest[i],
            false,
            n,
        ) by {
            assert(rest[i] == list[i]);
        }
        parts_are_cut(outline, rest, separators, n);
        let held = outlined_from(outline, spelled(rest, separators));
        one_more(held, c);
        let cut = outlined_with(held, c);
        assert(list[list.len() - 1] == last);
        closed_stays(cut, last, false, n);
        outlined_on(outline, spelled(rest, separators), seq![c]);
        outlined_on(outline, spelled(rest, separators) + seq![c], last);
        assert(cut.part + last =~= last);
        assert(cut.parts =~= rest);
    }
}

/// Cutting undoes spelling out: what is written inside one pair of brackets, separated by commas and
/// colons, is cut into just those parts again, whatever commas, colons and brackets are inside the
/// quotes and brackets of the parts.
pub proof fn cutting_undoes_spelling(
    front: Seq<char>,
    open: char,
    list: Seq<Seq<char>>,
    separators: Seq<char>,
    close: char,
    back: Seq<char>,
    n: nat,
)
    requires
        forall|i: int| 0 <= i < front.len() ==> is_bare(#[trigger] front[i]),
        forall|i: int| 0 <= i < back.len() ==> is_bare(#[trigger] back[i]),
        open == '[' || open == '{',
        close == ']' || close == '}',
        separators.len() + 1 >= list.len(),
        forall|i: int| 0 <= i < list.len() ==> is_closed(#[trigger] list[i], false, n),
        forall|i: int|
            0 <= i < separators.len() ==> (#[trigger] separators[i] == ',' || separators[i] == ':'),
        list.len() == 1 ==> !is_blank(list[0]),
    ensures
        opener(front + seq![open] + spelled(list, separators) + seq![close] + back) == Some(open),
        parts(front + seq![open] + spelled(list, separators) + seq![close] + back) == list,
{
    let inside = spelled(list, separators);
    let text = front + seq![open] + inside + seq![close] + back;
    let start = unopened();
    outlined_whole(text);
    outlined_on(start, front + seq![open] + inside + seq![close], back);
    outlined_on(start, front + seq![open] + inside, seq![close]);
    outlined_on(start, front + seq![open], inside);
    outlined_on(start, front, seq![open]);
    bare_outside(front, start);
    one_more(start, open);
    let opened = outlined_with(start, open);
    if list.len() > 0 {
        parts_are_cut(opened, list, separators, n);
        let held = outlined_from(opened, inside);
        one_more(held, close);
        let closed = outlined_with(held, close);
        bare_outside(back, closed);
        assert(list.drop_last().push(list.last()) =~= list);
    } else {
        assert(outlined_from(opened, inside) == opened);
        one_more(opened, close);
        let closed = outlined_with(opened, close);
        bare_outside(back, closed);
        assert(list =~= Seq::empty());
    }
}

/// No field has this name.
pub open spec fn is_unused(fields: Seq<(Seq<char>, Seq<char>)>, name: Seq<char>) -> bool {
    forall|i: int| 0 <= i < fields.len() ==> (#[trigger] fields[i]).0 != name
}

/// A field that does not come has no value.
pub proof fn an_absent_field_has_no_value(fields: Seq<(Seq<char>, Seq<char>)>, name: Seq<char>)
    requires
        is_unused(fields, name),
    ensures
        once(fields, name) == Ok::<Option<Seq<char>>, StateFailure>(None),
    decreases fields.len(),
{
    if fields.len() > 0 {
        let rest = fields.drop_last();
        assert(fields[fields.len() - 1] == fields.last());
        assert forall|i: int| 0 <= i < rest.len() implies (#[trigger] rest[i]).0 != name by {
            assert(rest[i] == fields[i]);
        }
        an_absent_field_has_no_value(rest, name);
    }
}

/// A field that comes once has its value, whatever comes before and after it.
pub proof fn a_single_field_has_its_value(
    front: Seq<(Seq<char>, Seq<char>)>,
    name: Seq<char>,
    value: Seq<char>,
    back: Seq<(Seq<char>, Seq<char>)>,
)
    requires
        is_unused(front, name),
        is_unused(back, name),
    ensures
        once(front + seq![(name, value)] + back, name) == Ok::<Option<Seq<char>>, StateFailure>(
            Some(value),
        ),
    decreases back.len(),
{
    let all = front + seq![(name, value)] + back;
    if back.len() > 0 {
        let rest = back.drop_last();
        assert(back[back.len() - 1] == back.last());
        assert forall|i: int| 0 <= i < rest.len() implies (#[trigger] rest[i]).0 != name by {
            assert(rest[i] == back[i]);
        }
        a_single_field_has_its_value(front, name, value, rest);
        assert(all.drop_last() =~= front + seq![(name, value)] + rest);
        assert(all.last() == back.last());
    } else {
        an_absent_field_has_no_value(front, name);
        assert(all.drop_last() =~= front);
        assert(all.last() == (name, value));
    }
}

/// A field that comes twice is refused, whatever comes before, between and after.
pub proof fn a_repeated_field_is_refused(
    front: Seq<(Seq<char>, Seq<char>)>,
    name: Seq<char>,
    value: Seq<char>,
    between: Seq<(Seq<char>, Seq<char>)>,
    other: Seq<char>,
    back: Seq<(Seq<char>, Seq<char>)>,
)
    ensures
        once(front + seq![(name, value)] + between + seq![(name, other)] + back, name) == Err::<
            Option<Seq<char>>,
            _,
        >(StateFailure::Field(name)),
    decreases back.len(),
{
    let first = front + seq![(name, value)] + between;
    let all = first + seq![(name, other)] + back;
    if back.len() > 0 {
        let rest = back.drop_last();
        a_repeated_field_is_refused(front, name, value, between, other, rest);
        assert(all.drop_last() =~= first + seq![(name, other)] + rest);
    } else {
        assert(first[front.len() as int] == (name, value));
        some_is_found(first, name, front.len() as int);
        only_repeats_are_refused(first, name);
        assert(all.drop_last() =~= first);
        assert(all.last() == (name, other));
    }
}

proof fn some_is_found(fields: Seq<(Seq<char>, Seq<char>)>, name: Seq<char>, i: int)
    requires
        0 <= i < fields.len(),
        fields[i].0 == name,
    ensures
        once(fields, name) != Ok::<Option<Seq<char>>, StateFailure>(None),
    decreases fields.len(),
{
    if i < fields.len() - 1 {
        assert(fields.drop_last()[i] == fields[i]);
        some_is_found(fields.drop_last(), name, i);
    }
}

proof fn only_repeats_are_refused(fields: Seq<(Seq<char>, Seq<char>)>, name: Seq<char>)
    ensures
        once(fields, name) matches Err(failure) ==> failure == StateFailure::Field(name),
    decreases fields.len(),
{
    if fields.len() > 0 {
        only_repeats_are_refused(fields.drop_last(), name);
    }
}

/// A state is known by its `version` and its `resources`, which is the list of what is known of
/// each.
pub proof fn what_is_known_of_a_state(text: Seq<char>, known: Json)
    requires
        state_value(text) == Ok::<Json, StateFailure>(known),
    ensures
        entries(text, seq!["version"@, "resources"@], "version"@) matches Ok(fields) && {
            &&& value_under(fields, "version"@) == Ok::<_, StateFailure>(known.get("version"@))
            &&& resources_under(fields) == Ok::<_, StateFailure>(known.get("resources"@))
        },
{
    reveal_strlit("version");
    reveal_strlit("resources");
    assert("version"@.len() == 7 && "resources"@.len() == 9);
}

/// A resource is known by its `module`, `mode`, `type` and `name`, and by its `instances`, which is
/// the list of what is known of each.
pub proof fn what_is_known_of_a_resource(text: Seq<char>, known: Json)
    requires
        resource_value(text) == Ok::<Json, StateFailure>(known),
    ensures
        entries(
            text,
            seq!["module"@, "mode"@, "type"@, "name"@, "instances"@],
            "resources"@,
        ) matches Ok(fields) && {
            &&& value_under(fields, "module"@) == Ok::<_, StateFailure>(known.get("module"@))
            &&& value_under(fields, "mode"@) == Ok::<_, StateFailure>(known.get("mode"@))
            &&& value_under(fields, "type"@) == Ok::<_, StateFailure>(known.get("type"@))
            &&& value_under(fields, "name"@) == Ok::<_, StateFailure>(known.get("name"@))
            &&& instances_under(fields) == Ok::<_, StateFailure>(known.get("instances"@))
        },
{
    reveal_strlit("module");
    reveal_strlit("mode");
    reveal_strlit("type");
    reveal_strlit("name");
    reveal_strlit("instances");
    assert("module"@.len() == 6 && "instances"@.len() == 9);
    assert("mode"@.len() == 4 && "type"@.len() == 4 && "name"@.len() == 4);
    assert("mode"@[0] != "type"@[0] && "mode"@[0] != "name"@[0] && "type"@[0] != "name"@[0]);
}

/// An instance is known by its `attributes`, its `index_key` and whether it is `deposed`.
pub proof fn what_is_known_of_an_instance(text: Seq<char>, known: Json)
    requires
        instance_value(text) == Ok::<Json, StateFailure>(known),
    ensures
        entries(
            text,
            seq!["attributes"@, "index_key"@, "deposed"@],
            "instances"@,
        ) matches Ok(fields) && {
            &&& nested_under(fields, "attributes"@) == Ok::<_, StateFailure>(
                known.get("attributes"@),
            )
            &&& nested_under(fields, "index_key"@) == Ok::<_, StateFailure>(
                known.get("index_key"@),
            )
            &&& value_under(fields, "deposed"@) == Ok::<_, StateFailure>(known.get("deposed"@))
        },
{
    reveal_strlit("attributes");
    reveal_strlit("index_key");
    reveal_strlit("deposed");
    assert("attributes"@.len() == 10 && "index_key"@.len() == 9 && "deposed"@.len() == 7);
}

proof fn each_resource(texts: Seq<Seq<char>>, values: Seq<Json>)
    requires
        resource_values(texts) == Ok::<Seq<Json>, StateFailure>(values),
    ensures
        values.len() == texts.len(),
        forall|i: int|
            0 <= i < texts.len() ==> resource_value(#[trigger] texts[i]) == Ok::<
                Json,
                StateFailure,
            >(values[i]),
    decreases texts.len(),
{
    if texts.len() > 0 {
        let rest = texts.drop_last();
        let before = resource_values(rest)->Ok_0;
        each_resource(rest, before);
        assert forall|i: int| 0 <= i < texts.len() implies resource_value(#[trigger] texts[i])
            == Ok::<Json, StateFailure>(values[i]) by {
            if i < rest.len() {
                assert(rest[i] == texts[i]);
            }
        }
    }
}

proof fn each_instance(texts: Seq<Seq<char>>, values: Seq<Json>)
    requires
        instance_values(texts) == Ok::<Seq<Json>, StateFailure>(values),
    ensures
        values.len() == texts.len(),
        forall|i: int|
            0 <= i < texts.len() ==> instance_value(#[trigger] texts[i]) == Ok::<
                Json,
                StateFailure,
            >(values[i]),
    decreases texts.len(),
{
    if texts.len() > 0 {
        let rest = texts.drop_last();
        let before = instance_values(rest)->Ok_0;
        each_instance(rest, before);
        assert forall|i: int| 0 <= i < texts.len() implies instance_value(#[trigger] texts[i])
            == Ok::<Json, StateFailure>(values[i]) by {
            if i < rest.len() {
                assert(rest[i] == texts[i]);
            }
        }
    }
}

/// Of a list under `resources`, or under `instances`, every part is known, in its place; what is no
/// list is refused.
pub proof fn lists_are_known_part_by_part(
    fields: Seq<(Seq<char>, Seq<char>)>,
    text: Seq<char>,
)
    ensures
        once(fields, "resources"@) == Ok::<_, StateFailure>(Some(text)) && resources_under(
            fields,
        ) is Ok ==> opener(text) == Some('[') && (resources_under(fields)->Ok_0 matches Some(
            Json::Array(values),
        ) && values.len() == parts(text).len() && forall|i: int|
            0 <= i < values.len() ==> resource_value(#[trigger] parts(text)[i]) == Ok::<
                Json,
                StateFailure,
            >(values[i])),
        once(fields, "instances"@) == Ok::<_, StateFailure>(Some(text)) && instances_under(
            fields,
        ) is Ok ==> opener(text) == Some('[') && (instances_under(fields)->Ok_0 matches Some(
            Json::Array(values),
        ) && values.len() == parts(text).len() && forall|i: int|
            0 <= i < values.len() ==> instance_value(#[trigger] parts(text)[i]) == Ok::<
                Json,
                StateFailure,
            >(values[i])),
        once(fields, "resources"@) == Ok::<_, StateFailure>(Some(text)) && opener(text) != Some('[')
            ==> resources_under(fields) == Err::<Option<Json>, _>(
            StateFailure::Field("resources"@),
        ),
        once(fields, "instances"@) == Ok::<_, StateFailure>(Some(text)) && opener(text) != Some('[')
            ==> instances_under(fields) == Err::<Option<Json>, _>(
            StateFailure::Field("instances"@),
        ),
{
    if let Ok(values) = resource_values(parts(text)) {
        each_resource(parts(text), values);
    }
    if let Ok(values) = instance_values(parts(text)) {
        each_instance(parts(text), values);
    }
}

/// An object gives each key the value that follows it, an array its values to the fields in their
/// order, and an array that is too long, or anything else, is refused.
pub proof fn fields_are_keyed(
    text: Seq<char>,
    names: Seq<Seq<char>>,
    own: Seq<char>,
    fields: Seq<(Seq<char>, Seq<char>)>,
)
    ensures
        opener(text) == Some('[') && parts(text).len() <= names.len() ==> entries(text, names, own)
            == Ok::<_, StateFailure>(
            Seq::new(parts(text).len(), |i: int| (names[i], parts(text)[i])),
        ),
        opener(text) == Some('[') && parts(text).len() > names.len() ==> entries(text, names, own)
            == Err::<Seq<(Seq<char>, Seq<char>)>, _>(StateFailure::Field(own)),
        opener(text) is None ==> entries(text, names, own) == Err::<
            Seq<(Seq<char>, Seq<char>)>,
            _,
        >(StateFailure::Field(own)),
        opener(text) == Some('{') && parts(text).len() == 2 * fields.len() && (forall|i: int|
            0 <= i < fields.len() ==> read(parts(text)[2 * i]) == Ok::<Json, Seq<char>>(
                Json::Text((#[trigger] fields[i]).0),
            ) && parts(text)[2 * i + 1] == fields[i].1) ==> entries(text, names, own) == Ok::<
            _,
            StateFailure,
        >(fields),
{
    if opener(text) == Some('{') && parts(text).len() == 2 * fields.len() && (forall|i: int|
        0 <= i < fields.len() ==> read(parts(text)[2 * i]) == Ok::<Json, Seq<char>>(
            Json::Text((#[trigger] fields[i]).0),
        ) && parts(text)[2 * i + 1] == fields[i].1) {
        keyed_in_turn(parts(text), fields, fields.len());
        assert(fields.take(fields.len() as int) =~= fields);
    }
}

proof fn keyed_in_turn(parts: Seq<Seq<char>>, fields: Seq<(Seq<char>, Seq<char>)>, count: nat)
    requires
        count <= fields.len(),
        forall|i: int|
            0 <= i < fields.len() ==> read(parts[2 * i]) == Ok::<Json, Seq<char>>(
                Json::Text((#[trigger] fields[i]).0),
            ) && parts[2 * i + 1] == fields[i].1,
    ensures
        crate::state::raw::keyed(parts, count) == Ok::<_, StateFailure>(fields.take(count as int)),
    decreases count,
{
    if count > 0 {
        keyed_in_turn(parts, fields, (count - 1) as nat);
        let i = count - 1;
        assert(read(parts[2 * i]) == Ok::<Json, Seq<char>>(Json::Text(fields[i].0)));
        assert(2 * count - 2 == 2 * i && 2 * count - 1 == 2 * i + 1);
        assert(fields.take(i).push(fields[i]) =~= fields.take(count as int));
    } else {
        assert(fields.take(0) =~= Seq::empty());
    }
}

} // verus!
