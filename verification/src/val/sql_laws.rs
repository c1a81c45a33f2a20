//! Laws of objects as query text.
use vstd::prelude::*;

use crate::collections::entries::entries_of_refs;
use crate::types::object::Object as PublicObject;
use crate::val::display::displayed;
use crate::val::object::Object;
use crate::val::sql::{
    closing, field_text, fields_text, object_text, opening, writes, Field, ObjectLayout,
};

verus! {

/// The sum of the lengths of fields, each with its name, a colon, a space and its value.
pub open spec fn fields_len(fields: Seq<Field>) -> nat
    decreases fields.len(),
{
    if fields.len() == 0 {
        0
    } else {
        fields_len(fields.drop_last()) + fields.last().0.len() + 2 + fields.last().1.len()
    }
}

/// A field is its name, a colon, a space and its value.
pub proof fn law_field_is_name_and_value(field: Field)
    ensures
        field_text(field).len() == field.0.len() + 2 + field.1.len(),
        field_text(field).take(field.0.len() as int) == field.0,
        field_text(field)[field.0.len() as int] == ':',
        field_text(field)[field.0.len() + 1int] == ' ',
        field_text(field).skip(field.0.len() + 2int) == field.1,
{
    reveal_strlit(": ");
    assert(field_text(field).take(field.0.len() as int) =~= field.0);
    assert(field_text(field).skip(field.0.len() + 2int) =~= field.1);
}

/// No fields are written as nothing, and one as itself, without a separator.
pub proof fn law_one_field_has_no_separator(field: Field, separator: Seq<char>)
    ensures
        fields_text(Seq::empty(), separator) == Seq::<char>::empty(),
        fields_text(seq![field], separator) == field_text(field),
{
}

/// Wherever fields are parted, the separator stands between the parts.
pub proof fn law_fields_are_joined(x: Seq<Field>, y: Seq<Field>, separator: Seq<char>)
    requires
        x.len() > 0,
        y.len() > 0,
    ensures
        fields_text(x + y, separator) == fields_text(x, separator) + separator + fields_text(
            y,
            separator,
        ),
    decreases y.len(),
{
    let all = x + y;
    let y1 = y.drop_last();
    assert(all.drop_last() =~= x + y1);
    assert(all.last() == y.last());
    if y.len() == 1 {
        assert(x + y1 =~= x);
        assert(y.last() == y[0]);
    } else {
        law_fields_are_joined(x, y1, separator);
        assert(fields_text(all, separator) =~= fields_text(x, separator) + separator + (fields_text(
            y1,
            separator,
        ) + separator + field_text(y.last())));
    }
}

/// Between fields there is one separator less than there are fields.
pub proof fn law_one_separator_between_two_fields(fields: Seq<Field>, separator: Seq<char>)
    requires
        fields.len() > 0,
    ensures
        fields_text(fields, separator).len() == fields_len(fields) + (fields.len() - 1)
            * separator.len(),
    decreases fields.len(),
{
    law_field_is_name_and_value(fields.last());
    if fields.len() > 1 {
        let rest = fields.drop_last();
        law_one_separator_between_two_fields(rest, separator);
        assert((fields.len() - 1) * separator.len() == (rest.len() - 1) * separator.len()
            + separator.len()) by (nonlinear_arith)
            requires
                fields.len() == rest.len() + 1,
        ;
    } else {
        assert(fields_len(fields.drop_last()) == 0);
        assert((fields.len() - 1) * separator.len() == 0) by (nonlinear_arith)
            requires
                fields.len() == 1,
        ;
    }
}

/// On one line, fields stand between braces, each with a space inside.
pub proof fn law_one_line_object(fields: Seq<Field>, layout: ObjectLayout)
    requires
        !layout.pretty,
    ensures
        object_text(fields, layout) == "{ "@ + fields_text(fields, layout.separator@) + " }"@,
{
    assert(object_text(fields, layout) =~= "{ "@ + fields_text(fields, layout.separator@)
        + " }"@);
}

/// Over several lines, an object opens on one, has its fields behind their indentation, and
/// closes behind its own indentation.
pub proof fn law_pretty_object(fields: Seq<Field>, layout: ObjectLayout)
    requires
        layout.pretty,
    ensures
        object_text(fields, layout) == "{\n"@ + layout.inner_indent@ + fields_text(
            fields,
            layout.separator@,
        ) + "\n"@ + layout.indent@ + "}"@,
{
    reveal_strlit("{");
    reveal_strlit("\n");
    reveal_strlit("{\n");
    assert("{\n"@ =~= "{"@ + "\n"@);
    assert(object_text(fields, layout) =~= "{\n"@ + layout.inner_indent@ + fields_text(
        fields,
        layout.separator@,
    ) + "\n"@ + layout.indent@ + "}"@);
}

/// The braces of an object that is not empty, with a space inside where it is on one line.
pub proof fn law_braces()
    ensures
        opening(true) == seq!['{'],
        closing(true) == seq!['}'],
        opening(false) == seq!['{', ' '],
        closing(false) == seq![' ', '}'],
{
    reveal_strlit("{");
    reveal_strlit("}");
    reveal_strlit("{ ");
    reveal_strlit(" }");
    assert(opening(true) =~= seq!['{']);
    assert(closing(true) =~= seq!['}']);
    assert(opening(false) =~= seq!['{', ' ']);
    assert(closing(false) =~= seq![' ', '}']);
}

/// A field of an object has the name that is written for the entry's key, and the value that is
/// written for the entry's value.
pub proof fn law_field_of_entry<V, K: Fn(&String) -> String, F: Fn(&V) -> String>(
    fmt_key: K,
    fmt_value: F,
    entry: (Seq<char>, V),
    field: Field,
    name: Seq<char>,
    text: Seq<char>,
)
    requires
        forall|key: String, r: String|
            key@ == entry.0 && #[trigger] call_ensures(fmt_key, (&key,), r) ==> r@ == name,
        forall|r: String| #[trigger] call_ensures(fmt_value, (&entry.1,), r) ==> r@ == text,
        writes(fmt_key, fmt_value, entry, field),
    ensures
        field.0 == name,
        field.1 == text,
{
}

/// The fields that are written for entries, each with its name and its value.
pub open spec fn fields_for<V>(
    entries: Seq<(Seq<char>, V)>,
    name: spec_fn(Seq<char>) -> Seq<char>,
    text: spec_fn(V) -> Seq<char>,
) -> Seq<Field> {
    Seq::new(entries.len(), |i: int| (name(entries[i].0), text(entries[i].1)))
}

/// An object is written behind what was there: its fields as it is presented, joined by the
/// separator, between braces; and an empty one as braces with two spaces.
pub proof fn law_object_is_written<V, K: Fn(&String) -> String, F: Fn(&V) -> String>(
    object: Object<V>,
    f: &mut String,
    layout: ObjectLayout,
    fmt_key: K,
    fmt_value: F,
    name: spec_fn(Seq<char>) -> Seq<char>,
    text: spec_fn(V) -> Seq<char>,
)
    requires
        call_ensures(
            Object::<V>::fmt_sql::<K, F>,
            (&object, f, &layout, fmt_key, fmt_value),
            (),
        ),
        forall|key: String, r: String| #[trigger]
            call_ensures(fmt_key, (&key,), r) ==> r@ == name(key@),
        forall|value: V, r: String| #[trigger]
            call_ensures(fmt_value, (&value,), r) ==> r@ == text(value),
    ensures
        ({
            let fields = fields_for(displayed(object@, object.order()), name, text);
            let joined = fields_text(fields, layout.separator@);
            &&& object@.len() == 0 ==> final(f)@ == old(f)@ + seq!['{', ' ', ' ', '}']
            &&& object@.len() > 0 && !layout.pretty ==> final(f)@ == old(f)@ + ("{ "@ + joined
                + " }"@)
            &&& object@.len() > 0 && layout.pretty ==> final(f)@ == old(f)@ + ("{\n"@
                + layout.inner_indent@ + joined + "\n"@ + layout.indent@ + "}"@)
        }),
{
    reveal_strlit("{  }");
    assert("{  }"@ =~= seq!['{', ' ', ' ', '}']);
    let shown = displayed(object@, object.order());
    if object@.len() > 0 {
        let fields = choose|fields: Seq<Field>|
            {
                &&& fields.len() == shown.len()
                &&& forall|i: int|
                    0 <= i < fields.len() ==> writes(
                        fmt_key,
                        fmt_value,
                        shown[i],
                        #[trigger] fields[i],
                    )
                &&& final(f)@ == f@ + #[trigger] object_text(fields, layout)
            };
        assert forall|i: int| 0 <= i < fields.len() implies #[trigger] fields[i] == (
            name(shown[i].0),
            text(shown[i].1),
        ) by {
            assert(writes(fmt_key, fmt_value, shown[i], fields[i]));
        }
        assert(fields =~= fields_for(shown, name, text));
        if layout.pretty {
            law_pretty_object(fields, layout);
        } else {
            law_one_line_object(fields, layout);
        }
    }
}

/// A client object is written behind what was there: its fields as they are written out in the
/// order of presentation, between braces; and an empty one as braces with two spaces.
pub proof fn law_client_object_is_written<V, F: Fn(Vec<(&String, &V)>) -> String>(
    object: PublicObject<V>,
    f: &mut String,
    pretty: bool,
    fmt_entries: F,
    text: spec_fn(Seq<(Seq<char>, V)>) -> Seq<char>,
)
    requires
        call_ensures(PublicObject::<V>::fmt_sql::<F>, (&object, f, pretty, fmt_entries), ()),
        forall|entries: Vec<(&String, &V)>, r: String| #[trigger]
            call_ensures(fmt_entries, (entries,), r) ==> r@ == text(entries_of_refs(entries@)),
    ensures
        ({
            let shown = text(displayed(object@, object.order()));
            &&& object@.len() == 0 ==> final(f)@ == old(f)@ + seq!['{', ' ', ' ', '}']
            &&& object@.len() > 0 && pretty ==> final(f)@ == old(f)@ + seq!['{'] + shown + seq!['}']
            &&& object@.len() > 0 && !pretty ==> final(f)@ == old(f)@ + seq!['{', ' '] + shown
                + seq![' ', '}']
        }),
{
    reveal_strlit("{  }");
    assert("{  }"@ =~= seq!['{', ' ', ' ', '}']);
    law_braces();
}

} // verus!
