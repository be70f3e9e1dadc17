//! The KeyValues tree that `loginusers.vdf` holds, and its mathematical model.
//!
//! A document is a sequence of fields; a field is a quoted key followed either by a quoted
//! text or by a braced object, itself a sequence of fields. Field order and key spelling are
//! kept as read.

use vstd::prelude::*;

use crate::text::{eq_ignore_ascii_case, eq_ignore_case};

verus! {

/// Model of a value: a text, or an object made of fields.
pub enum VdfTree {
    Text(Seq<char>),
    Node(Seq<VdfField>),
}

/// Model of one field: its key as written and its value.
pub struct VdfField {
    pub key: Seq<char>,
    pub value: VdfTree,
}

#[derive(Debug)]
pub struct VdfEntry {
    pub key: String,
    pub value: VdfValue,
}

#[derive(Debug)]
pub enum VdfValue {
    String(String),
    Object(VdfObject),
}

#[derive(Debug)]
pub struct VdfObject {
    pub entries: Vec<VdfEntry>,
}

impl VdfValue {
    pub open spec fn tree(self) -> VdfTree
        decreases self,
    {
        match self {
            VdfValue::String(s) => VdfTree::Text(s@),
            VdfValue::Object(o) => VdfTree::Node(fields_of(o.entries@)),
        }
    }
}

/// The model of a sequence of entries, field by field.
pub open spec fn fields_of(entries: Seq<VdfEntry>) -> Seq<VdfField>
    decreases entries,
{
    Seq::new(
        entries.len(),
        |i: int|
            VdfField {
                key: entries[i].key@,
                value: if 0 <= i < entries.len() {
                    entries[i].value.tree()
                } else {
                    VdfTree::Text(Seq::empty())
                },
            },
    )
}

impl VdfEntry {
    pub open spec fn field(self) -> VdfField {
        VdfField { key: self.key@, value: self.value.tree() }
    }
}

impl VdfObject {
    pub open spec fn fields(self) -> Seq<VdfField> {
        fields_of(self.entries@)
    }
}

pub proof fn lemma_fields_of_index(entries: Seq<VdfEntry>, i: int)
    requires
        0 <= i < entries.len(),
    ensures
        fields_of(entries).len() == entries.len(),
        fields_of(entries)[i] == entries[i].field(),
{
}

/// The position of the first field whose key equals `key` ignoring ASCII case, looking
/// from position `from` on.
pub open spec fn find_key_from(fields: Seq<VdfField>, key: Seq<char>, from: int) -> Option<int>
    decreases fields.len() - from,
{
    if from < 0 || from >= fields.len() {
        None
    } else if eq_ignore_case(fields[from].key, key) {
        Some(from)
    } else {
        find_key_from(fields, key, from + 1)
    }
}

pub open spec fn find_key(fields: Seq<VdfField>, key: Seq<char>) -> Option<int> {
    find_key_from(fields, key, 0)
}

/// The text of the first field named `key` (ignoring ASCII case); none when no field has
/// that name or when the first one holds an object.
pub open spec fn text_of(fields: Seq<VdfField>, key: Seq<char>) -> Option<Seq<char>> {
    match find_key(fields, key) {
        Some(i) => match fields[i].value {
            VdfTree::Text(v) => Some(v),
            VdfTree::Node(_) => None,
        },
        None => None,
    }
}

pub proof fn lemma_find_key_from(fields: Seq<VdfField>, key: Seq<char>, from: int)
    requires
        0 <= from,
    ensures
        match find_key_from(fields, key, from) {
            Some(i) => from <= i < fields.len() && eq_ignore_case(fields[i].key, key) && forall|
                j: int,
            |
                from <= j < i ==> !eq_ignore_case(#[trigger] fields[j].key, key),
            None => forall|j: int|
                from <= j < fields.len() ==> !eq_ignore_case(#[trigger] fields[j].key, key),
        },
    decreases fields.len() - from,
{
    if from < fields.len() && !eq_ignore_case(fields[from].key, key) {
        lemma_find_key_from(fields, key, from + 1);
    }
}

/// A field position characterised directly: the first field named `key`.
pub proof fn lemma_find_key_exact(fields: Seq<VdfField>, key: Seq<char>, i: int)
    requires
        0 <= i < fields.len(),
        eq_ignore_case(fields[i].key, key),
        forall|j: int| 0 <= j < i ==> !eq_ignore_case(#[trigger] fields[j].key, key),
    ensures
        find_key(fields, key) == Some(i),
{
    lemma_find_key_from(fields, key, 0);
    match find_key(fields, key) {
        Some(k) => {
            if k < i {
                assert(!eq_ignore_case(fields[k].key, key));
            }
            if k > i {
                assert(!eq_ignore_case(fields[i].key, key));
            }
        },
        None => {
            assert(!eq_ignore_case(fields[i].key, key));
        },
    }
}

pub proof fn lemma_find_key_none(fields: Seq<VdfField>, key: Seq<char>)
    requires
        forall|j: int| 0 <= j < fields.len() ==> !eq_ignore_case(#[trigger] fields[j].key, key),
    ensures
        find_key(fields, key) == None::<int>,
{
    lemma_find_key_from(fields, key, 0);
    match find_key(fields, key) {
        Some(k) => {
            assert(eq_ignore_case(fields[k].key, key));
        },
        None => {},
    }
}

/// Position of the first entry whose key equals `key` ignoring ASCII case.
pub fn find_entry(entries: &Vec<VdfEntry>, key: &str) -> (r: Option<usize>)
    ensures
        match r {
            Some(i) => find_key(fields_of(entries@), key@) == Some(i as int) && i < entries@.len(),
            None => find_key(fields_of(entries@), key@) == None::<int>,
        },
{
    let ghost fields = fields_of(entries@);
    let n = entries.len();
    let mut i: usize = 0;
    while i < n
        invariant
            n == entries@.len(),
            fields == fields_of(entries@),
            i <= n,
            forall|j: int| 0 <= j < i ==> !eq_ignore_case(#[trigger] fields[j].key, key@),
        decreases n - i,
    {
        proof {
            lemma_fields_of_index(entries@, i as int);
        }
        if eq_ignore_ascii_case(entries[i].key.as_str(), key) {
            proof {
                lemma_find_key_exact(fields, key@, i as int);
            }
            return Some(i);
        }
        i = i + 1;
    }
    proof {
        lemma_find_key_none(fields, key@);
    }
    None
}

} // verus!
