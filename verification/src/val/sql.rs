//! Objects written out as query text.
use vstd::prelude::*;
use vstd::string::StringExecFns;

use crate::collections::entries::entries_of_refs;
use crate::types::object::Object as PublicObject;
use crate::val::display::displayed;
use crate::val::object::Object;

verus! {

/// How an object is laid out: on one line, or over several lines with indentation.
pub struct ObjectLayout {
    /// Whether the fields stand on lines of their own.
    pub pretty: bool,
    /// The indentation of the object.
    pub indent: String,
    /// The indentation of its fields.
    pub inner_indent: String,
    /// What stands between two fields.
    pub separator: String,
}

/// A field: its name and its value, as they are written.
pub type Field = (Seq<char>, Seq<char>);

/// A field written out.
pub open spec fn field_text(field: Field) -> Seq<char> {
    field.0 + ": "@ + field.1
}

/// Fields written out, with a separator between any two.
pub open spec fn fields_text(fields: Seq<Field>, separator: Seq<char>) -> Seq<char>
    decreases fields.len(),
{
    if fields.len() == 0 {
        Seq::empty()
    } else if fields.len() == 1 {
        field_text(fields[0])
    } else {
        fields_text(fields.drop_last(), separator) + separator + field_text(fields.last())
    }
}

/// What stands before the fields of an object that is not empty.
pub open spec fn opening(pretty: bool) -> Seq<char> {
    if pretty {
        "{"@
    } else {
        "{ "@
    }
}

/// What stands behind the fields of an object that is not empty.
pub open spec fn closing(pretty: bool) -> Seq<char> {
    if pretty {
        "}"@
    } else {
        " }"@
    }
}

/// A line of its own, in a layout of several lines.
pub open spec fn line(pretty: bool, indent: Seq<char>) -> Seq<char> {
    if pretty {
        "\n"@ + indent
    } else {
        Seq::empty()
    }
}

/// An object that is not empty, written out.
pub open spec fn object_text(fields: Seq<Field>, layout: ObjectLayout) -> Seq<char> {
    opening(layout.pretty) + line(layout.pretty, layout.inner_indent@) + fields_text(
        fields,
        layout.separator@,
    ) + line(layout.pretty, layout.indent@) + closing(layout.pretty)
}

/// The field is what the two functions write for the entry.
pub open spec fn writes<V, K: Fn(&String) -> String, F: Fn(&V) -> String>(
    fmt_key: K,
    fmt_value: F,
    entry: (Seq<char>, V),
    field: Field,
) -> bool {
    exists|key: String, name: String, text: String|
        {
            &&& key@ == entry.0
            &&& #[trigger] call_ensures(fmt_key, (&key,), name)
            &&& #[trigger] call_ensures(fmt_value, (&entry.1,), text)
            &&& field == (name@, text@)
        }
}

impl<V> Object<V> {
    /// Appends the object as query text: its fields in presentation order, each with its name
    /// as `fmt_key` writes it and its value as `fmt_value` does.
    pub fn fmt_sql<K: Fn(&String) -> String, F: Fn(&V) -> String>(
        &self,
        f: &mut String,
        layout: &ObjectLayout,
        fmt_key: K,
        fmt_value: F,
    )
        requires
            forall|k: String| call_requires(fmt_key, (&k,)),
            forall|v: V| call_requires(fmt_value, (&v,)),
        ensures
            self@.len() == 0 ==> final(f)@ == old(f)@ + "{  }"@,
            self@.len() > 0 ==> exists|fields: Seq<Field>|
                {
                    &&& fields.len() == displayed(self@, self.order()).len()
                    &&& forall|i: int|
                        0 <= i < fields.len() ==> writes(
                            fmt_key,
                            fmt_value,
                            displayed(self@, self.order())[i],
                            #[trigger] fields[i],
                        )
                    &&& final(f)@ == old(f)@ + #[trigger] object_text(fields, *layout)
                },
    {
        if self.0.0.is_empty() {
            f.append("{  }");
            return ;
        }
        if layout.pretty {
            f.append("{");
            f.append("\n");
            f.append(layout.inner_indent.as_str());
        } else {
            f.append("{ ");
        }
        let ghost head = f@;
        let entries = self.iter_display();
        let ghost shown = displayed(self@, self.order());
        let ghost mut fields: Seq<Field> = Seq::empty();
        let mut i: usize = 0;
        assert(head + fields_text(fields, layout.separator@) =~= head);
        while i < entries.len()
            invariant
                i <= entries@.len(),
                entries_of_refs(entries@) == shown,
                fields.len() == i,
                forall|k: String| call_requires(fmt_key, (&k,)),
                forall|v: V| call_requires(fmt_value, (&v,)),
                forall|j: int|
                    0 <= j < i ==> writes(fmt_key, fmt_value, shown[j], #[trigger] fields[j]),
                f@ == head + fields_text(fields, layout.separator@),
            decreases entries@.len() - i,
        {
            if i > 0 {
                f.append(layout.separator.as_str());
            }
            let (key, value) = entries[i];
            let name = fmt_key(key);
            let text = fmt_value(value);
            f.append(name.as_str());
            f.append(": ");
            f.append(text.as_str());
            proof {
                let more = fields.push((name@, text@));
                assert(shown[i as int] == (key@, *value));
                assert(more.drop_last() =~= fields);
                assert(call_ensures(fmt_key, (key,), name));
                assert(call_ensures(fmt_value, (&shown[i as int].1,), text));
                assert(writes(fmt_key, fmt_value, shown[i as int], more[i as int]));
                assert(f@ =~= head + fields_text(more, layout.separator@));
                fields = more;
            }
            i = i + 1;
        }
        if layout.pretty {
            f.append("\n");
            f.append(layout.indent.as_str());
            f.append("}");
        } else {
            f.append(" }");
        }
        assert(f@ =~= old(f)@ + object_text(fields, *layout));
    }
}

impl<V> PublicObject<V> {
    /// Appends the object as query text, its fields as `fmt_entries` writes them out in
    /// presentation order.
    pub fn fmt_sql<F: Fn(Vec<(&String, &V)>) -> String>(
        &self,
        f: &mut String,
        pretty: bool,
        fmt_entries: F,
    )
        requires
            forall|entries: Vec<(&String, &V)>| call_requires(fmt_entries, (entries,)),
        ensures
            self@.len() == 0 ==> final(f)@ == old(f)@ + "{  }"@,
            self@.len() > 0 ==> exists|entries: Vec<(&String, &V)>, text: String|
                {
                    &&& entries_of_refs(entries@) == displayed(self@, self.order())
                    &&& #[trigger] call_ensures(fmt_entries, (entries,), text)
                    &&& final(f)@ == old(f)@ + opening(pretty) + text@ + closing(pretty)
                },
    {
        if self.is_empty() {
            f.append("{  }");
            return ;
        }
        if pretty {
            f.append("{");
        } else {
            f.append("{ ");
        }
        let entries = self.iter_display();
        let text = fmt_entries(entries);
        f.append(text.as_str());
        if pretty {
            f.append("}");
        } else {
            f.append(" }");
        }
    }
}

} // verus!
