//! Writing a KeyValues tree back as text, in the layout Steam itself uses: one field per
//! line, tabs for indentation, two tabs between a key and its text, braces on lines of
//! their own.

use vstd::prelude::*;
use vstd::string::StrSliceExecFns;

use crate::text::{push_char, push_text};
use crate::vdf::{VdfEntry, VdfField, VdfObject, VdfTree, VdfValue, lemma_fields_of_index};

verus! {

/// A backslash or a double quote gets a backslash in front; every other character stays.
pub open spec fn escape_char(c: char) -> Seq<char> {
    if c == '\\' {
        seq!['\\', '\\']
    } else if c == '"' {
        seq!['\\', '"']
    } else {
        seq![c]
    }
}

pub open spec fn escape(s: Seq<char>) -> Seq<char>
    decreases s.len(),
{
    if s.len() == 0 {
        Seq::empty()
    } else {
        escape(s.drop_last()) + escape_char(s.last())
    }
}

/// The text of a sequence of fields, each line starting with `indent`.
pub open spec fn render_fields(fields: Seq<VdfField>, indent: Seq<char>) -> Seq<char>
    decreases fields,
{
    if fields.len() == 0 {
        Seq::empty()
    } else {
        render_fields(fields.drop_last(), indent) + render_field(fields.last(), indent)
    }
}

/// The text of one field: `"key"\t\t"text"` on one line, or `"key"` followed by its
/// object between braces, one level deeper.
pub open spec fn render_field(field: VdfField, indent: Seq<char>) -> Seq<char>
    decreases field,
{
    indent + seq!['"'] + escape(field.key) + seq!['"'] + match field.value {
        VdfTree::Text(v) => seq!['\t', '\t', '"'] + escape(v) + seq!['"', '\n'],
        VdfTree::Node(children) => seq!['\n'] + indent + seq!['{', '\n'] + render_fields(
            children,
            indent.push('\t'),
        ) + indent + seq!['}', '\n'],
    }
}

fn push_escaped(out: &mut String, value: &str)
    ensures
        final(out)@ == old(out)@ + escape(value@),
{
    let n = value.unicode_len();
    let mut i: usize = 0;
    assert(value@.take(0) =~= Seq::<char>::empty());
    assert(old(out)@ + escape(Seq::<char>::empty()) =~= old(out)@);
    while i < n
        invariant
            n == value@.len(),
            i <= n,
            out@ == old(out)@ + escape(value@.take(i as int)),
        decreases n - i,
    {
        let c = value.get_char(i);
        let ghost before = out@;
        if c == '\\' {
            push_text(out, "\\\\");
            proof {
                reveal_strlit("\\\\");
            }
        } else if c == '"' {
            push_text(out, "\\\"");
            proof {
                reveal_strlit("\\\"");
            }
        } else {
            push_char(out, c);
        }
        proof {
            let t = value@.take(i + 1);
            assert(t.drop_last() =~= value@.take(i as int));
            assert(t.last() == c);
            assert(out@ =~= before + escape_char(c));
        }
        i = i + 1;
    }
    assert(value@.take(n as int) =~= value@);
}

pub fn render_object(object: &VdfObject, indent: &String, out: &mut String)
    ensures
        final(out)@ == old(out)@ + render_fields(object.fields(), indent@),
    decreases object,
{
    let n = object.entries.len();
    let ghost fields = object.fields();
    let mut i: usize = 0;
    assert(fields.take(0) =~= Seq::<VdfField>::empty());
    assert(old(out)@ + render_fields(Seq::<VdfField>::empty(), indent@) =~= old(out)@);
    while i < n
        invariant
            n == object.entries@.len(),
            fields == object.fields(),
            fields.len() == n,
            i <= n,
            out@ == old(out)@ + render_fields(fields.take(i as int), indent@),
        decreases n - i,
    {
        let entry = &object.entries[i];
        proof {
            lemma_fields_of_index(object.entries@, i as int);
        }
        let ghost before = out@;
        render_entry(entry, indent, out);
        proof {
            let t = fields.take(i + 1);
            assert(t.drop_last() =~= fields.take(i as int));
            assert(t.last() == entry.field());
            assert(out@ =~= old(out)@ + render_fields(t, indent@));
        }
        i = i + 1;
    }
    assert(fields.take(n as int) =~= fields);
}

pub fn render_entry(entry: &VdfEntry, indent: &String, out: &mut String)
    ensures
        final(out)@ == old(out)@ + render_field(entry.field(), indent@),
    decreases entry,
{
    push_text(out, indent.as_str());
    push_char(out, '"');
    push_escaped(out, entry.key.as_str());
    push_char(out, '"');
    match &entry.value {
        VdfValue::String(value) => {
            push_text(out, "\t\t\"");
            push_escaped(out, value.as_str());
            push_text(out, "\"\n");
            proof {
                reveal_strlit("\t\t\"");
                reveal_strlit("\"\n");
            }
        },
        VdfValue::Object(child) => {
            push_char(out, '\n');
            push_text(out, indent.as_str());
            push_text(out, "{\n");
            let mut deeper = indent.clone();
            push_char(&mut deeper, '\t');
            render_object(child, &deeper, out);
            push_text(out, indent.as_str());
            push_text(out, "}\n");
            proof {
                reveal_strlit("{\n");
                reveal_strlit("}\n");
            }
        },
    }
    assert(out@ =~= old(out)@ + render_field(entry.field(), indent@));
}

} // verus!
