//! Reading back what was written: the rendering of any document parses to that document.

use vstd::prelude::*;

use crate::loginusers_vdf::{account_records, activate_root, users_fields};
use crate::steam::StartMode;
use crate::vdf::{VdfField, VdfTree};
use crate::vdf_parse::{
    bom_len, document_fields, entry_from, expect_from, is_vdf_space, members_from, object_from,
    quoted_from, root_from, string_from, ws_end,
};
use crate::vdf_render::{escape, escape_char, render_field, render_fields};
use crate::vdf_rewrite::{lemma_switch_read_back, switched_records};

verus! {

/// The characters of `s` from position `p` on spell `piece`.
#[verifier::opaque]
pub open spec fn at(s: Seq<char>, p: int, piece: Seq<char>) -> bool {
    &&& 0 <= p
    &&& p + piece.len() <= s.len()
    &&& forall|i: int| 0 <= i < piece.len() ==> s[p + i] == #[trigger] piece[i]
}

pub open spec fn all_tabs(t: Seq<char>) -> bool {
    forall|i: int| 0 <= i < t.len() ==> #[trigger] t[i] == '\t'
}

proof fn lemma_at_part(s: Seq<char>, p: int, piece: Seq<char>, i: int, j: int)
    requires
        at(s, p, piece),
        0 <= i <= j <= piece.len(),
    ensures
        at(s, p + i, piece.subrange(i, j)),
{
    reveal(at);
    assert forall|k: int| 0 <= k < j - i implies s[p + i + k] == #[trigger] piece.subrange(
        i,
        j,
    )[k] by {
        assert(s[p + (i + k)] == piece[i + k]);
    }
}

proof fn lemma_at_byte(s: Seq<char>, p: int, piece: Seq<char>, i: int)
    requires
        at(s, p, piece),
        0 <= i < piece.len(),
    ensures
        s[p + i] == piece[i],
        0 <= p,
        p + piece.len() <= s.len(),
{
    reveal(at);
}

proof fn lemma_at_bounds(s: Seq<char>, p: int, piece: Seq<char>)
    requires
        at(s, p, piece),
    ensures
        0 <= p,
        p + piece.len() <= s.len(),
{
    reveal(at);
}

/// Tabs and line breaks in the piece are whitespace in the input.
proof fn lemma_at_spaces(s: Seq<char>, p: int, piece: Seq<char>, i: int, j: int)
    requires
        at(s, p, piece),
        0 <= i <= j <= piece.len(),
        forall|k: int| i <= k < j ==> #[trigger] piece[k] == '\t' || piece[k] == '\n',
    ensures
        forall|k: int| p + i <= k < p + j ==> is_vdf_space(#[trigger] s[k]),
{
    reveal(at);
    assert forall|k: int| p + i <= k < p + j implies is_vdf_space(#[trigger] s[k]) by {
        assert(s[p + (k - p)] == piece[k - p]);
    }
}

proof fn lemma_escape_concat(a: Seq<char>, b: Seq<char>)
    ensures
        escape(a + b) == escape(a) + escape(b),
    decreases b.len(),
{
    if b.len() == 0 {
        assert(a + b =~= a);
        assert(escape(a) + escape(b) =~= escape(a));
    } else {
        lemma_escape_concat(a, b.drop_last());
        assert((a + b).drop_last() =~= a + b.drop_last());
        assert((a + b).last() == b.last());
        assert(escape(a) + escape(b) =~= escape(a) + escape(b.drop_last()) + escape_char(b.last()));
    }
}

proof fn lemma_escape_front(x: Seq<char>)
    requires
        x.len() > 0,
    ensures
        escape(x) == escape_char(x[0]) + escape(x.drop_first()),
{
    assert(x =~= seq![x[0]] + x.drop_first());
    lemma_escape_concat(seq![x[0]], x.drop_first());
    assert(seq![x[0]].drop_last() =~= Seq::<char>::empty());
    assert(seq![x[0]].last() == x[0]);
    assert(escape(Seq::<char>::empty()) =~= Seq::<char>::empty());
    assert(escape(seq![x[0]]) == escape(Seq::<char>::empty()) + escape_char(x[0]));
    assert(escape(seq![x[0]]) =~= escape_char(x[0]));
}

proof fn lemma_render_fields_front(fields: Seq<VdfField>, indent: Seq<char>)
    requires
        fields.len() > 0,
    ensures
        render_fields(fields, indent) == render_field(fields[0], indent) + render_fields(
            fields.drop_first(),
            indent,
        ),
    decreases fields.len(),
{
    if fields.len() == 1 {
        assert(fields.drop_last() =~= Seq::<VdfField>::empty());
        assert(fields.drop_first() =~= Seq::<VdfField>::empty());
        assert(fields.last() == fields[0]);
        assert(render_fields(Seq::<VdfField>::empty(), indent) =~= Seq::<char>::empty());
        assert(render_fields(fields, indent) == render_fields(fields.drop_last(), indent)
            + render_field(fields.last(), indent));
        assert(render_fields(fields, indent) =~= render_field(fields[0], indent));
        assert(render_field(fields[0], indent) + render_fields(fields.drop_first(), indent)
            =~= render_field(fields[0], indent));
    } else {
        lemma_render_fields_front(fields.drop_last(), indent);
        assert(fields.drop_last()[0] == fields[0]);
        assert(fields.drop_last().drop_first() =~= fields.drop_first().drop_last());
        assert(fields.drop_first().last() == fields.last());
        assert(render_fields(fields, indent) =~= render_field(fields[0], indent) + render_fields(
            fields.drop_first(),
            indent,
        ));
    }
}

/// Whitespace from `p` up to `q`, and at `q` neither whitespace nor a comment.
proof fn lemma_ws_skip(s: Seq<char>, p: int, q: int)
    requires
        0 <= p <= q <= s.len(),
        forall|i: int| p <= i < q ==> is_vdf_space(#[trigger] s[i]),
        q < s.len() ==> !is_vdf_space(s[q]) && s[q] != '/',
    ensures
        ws_end(s, p) == q,
    decreases q - p,
{
    if p < q {
        lemma_ws_skip(s, p + 1, q);
    }
}

proof fn lemma_string_roundtrip(s: Seq<char>, p: int, x: Seq<char>)
    requires
        at(s, p, escape(x) + seq!['"']),
    ensures
        string_from(s, p) == Ok::<(Seq<char>, int), crate::error::VdfError>(
            (x, p + escape(x).len() + 1),
        ),
    decreases x.len(),
{
    let piece = escape(x) + seq!['"'];
    lemma_at_bounds(s, p, piece);
    if x.len() == 0 {
        assert(escape(x) =~= Seq::<char>::empty());
        lemma_at_byte(s, p, piece, 0);
        assert(x =~= Seq::<char>::empty());
    } else {
        lemma_escape_front(x);
        let c = x[0];
        let rest = x.drop_first();
        let e = escape_char(c);
        assert(piece =~= e + (escape(rest) + seq!['"']));
        lemma_at_part(s, p, piece, e.len() as int, piece.len() as int);
        assert(piece.subrange(e.len() as int, piece.len() as int) =~= escape(rest) + seq!['"']);
        lemma_string_roundtrip(s, p + e.len(), rest);
        lemma_at_byte(s, p, piece, 0);
        assert(seq![c] + rest =~= x);
        if c == '\\' || c == '"' {
            lemma_at_byte(s, p, piece, 1);
            assert(s[p] == '\\');
        } else {
            assert(s[p] == c);
        }
        assert(escape(x).len() == e.len() + escape(rest).len());
    }
}

/// The field rendered at `p` with indentation `indent` reads back as itself, from the
/// opening quote of its key up to just before its final line break.
#[verifier::rlimit(40)]
proof fn lemma_entry_roundtrip(s: Seq<char>, p: int, field: VdfField, indent: Seq<char>)
    requires
        all_tabs(indent),
        at(s, p, render_field(field, indent)),
    ensures
        entry_from(s, p + indent.len()) == Ok::<(VdfField, int), crate::error::VdfError>(
            (field, p + render_field(field, indent).len() - 1),
        ),
    decreases field,
{
    let f = render_field(field, indent);
    let ek = escape(field.key);
    let k = p + indent.len();
    let head = indent + seq!['"'] + ek + seq!['"'];
    let hl = head.len() as int;
    lemma_at_bounds(s, p, f);
    assert(f.subrange(0, hl) =~= head);
    assert(f[indent.len() as int] == '"');
    lemma_at_byte(s, p, f, indent.len() as int);
    // the key
    lemma_ws_skip(s, k, k);
    assert(expect_from(s, k, '"') == Ok::<int, crate::error::VdfError>(k + 1));
    lemma_at_part(s, p, f, (indent.len() + 1) as int, hl);
    assert(f.subrange((indent.len() + 1) as int, hl) =~= ek + seq!['"']);
    lemma_string_roundtrip(s, k + 1, field.key);
    let p1 = k + 2 + ek.len();
    assert(p1 == p + hl);
    assert(quoted_from(s, k) == Ok::<(Seq<char>, int), crate::error::VdfError>(
        (field.key, p1),
    ));
    match field.value {
        VdfTree::Text(v) => {
            let ev = escape(v);
            assert(f =~= head + seq!['\t', '\t', '"'] + ev + seq!['"', '\n']);
            lemma_at_spaces(s, p, f, hl, hl + 2);
            lemma_at_byte(s, p, f, hl + 2);
            lemma_ws_skip(s, p1, p1 + 2);
            let p2 = p1 + 2;
            lemma_ws_skip(s, p2, p2);
            assert(expect_from(s, p2, '"') == Ok::<int, crate::error::VdfError>(p2 + 1));
            lemma_at_part(s, p, f, hl + 3, f.len() - 1);
            assert(f.subrange(hl + 3, f.len() - 1) =~= ev + seq!['"']);
            lemma_string_roundtrip(s, p2 + 1, v);
        },
        VdfTree::Node(children) => {
            let deeper = indent.push('\t');
            let body = render_fields(children, deeper);
            assert(f =~= head + seq!['\n'] + indent + seq!['{', '\n'] + body + indent + seq![
                '}',
                '\n',
            ]);
            let p2 = p1 + 1 + indent.len();
            lemma_at_spaces(s, p, f, hl, hl + 1 + indent.len());
            lemma_at_byte(s, p, f, p2 - p);
            lemma_ws_skip(s, p1, p2);
            lemma_ws_skip(s, p2, p2);
            assert(expect_from(s, p2, '{') == Ok::<int, crate::error::VdfError>(p2 + 1));
            lemma_at_part(s, p, f, p2 + 1 - p, f.len() - 1);
            assert(f.subrange(p2 + 1 - p, f.len() - 1) =~= seq!['\n'] + body + indent + seq!['}']);
            lemma_members_roundtrip(s, p2 + 1, children, indent);
            assert(object_from(s, p2) == members_from(s, p2 + 1));
        },
    }
}

/// The fields of an object rendered after `p` (a line break, the fields one level deeper,
/// the indentation and the closing brace) read back as themselves.
#[verifier::rlimit(40)]
proof fn lemma_members_roundtrip(s: Seq<char>, p: int, fields: Seq<VdfField>, indent: Seq<char>)
    requires
        all_tabs(indent),
        at(s, p, seq!['\n'] + render_fields(fields, indent.push('\t')) + indent + seq!['}']),
    ensures
        members_from(s, p) == Ok::<(Seq<VdfField>, int), crate::error::VdfError>(
            (fields, p + render_fields(fields, indent.push('\t')).len() + indent.len() + 2),
        ),
    decreases fields,
{
    let deeper = indent.push('\t');
    let body = render_fields(fields, deeper);
    let piece = seq!['\n'] + body + indent + seq!['}'];
    lemma_at_bounds(s, p, piece);
    if fields.len() == 0 {
        assert(body =~= Seq::<char>::empty());
        let q = p + 1 + indent.len();
        lemma_at_spaces(s, p, piece, 0, q - p);
        lemma_at_byte(s, p, piece, q - p);
        lemma_ws_skip(s, p, q);
        assert(fields =~= Seq::<VdfField>::empty());
    } else {
        lemma_members_step(s, p, fields, indent);
    }
}

#[verifier::rlimit(40)]
proof fn lemma_members_step(s: Seq<char>, p: int, fields: Seq<VdfField>, indent: Seq<char>)
    requires
        all_tabs(indent),
        fields.len() > 0,
        at(s, p, seq!['\n'] + render_fields(fields, indent.push('\t')) + indent + seq!['}']),
    ensures
        members_from(s, p) == Ok::<(Seq<VdfField>, int), crate::error::VdfError>(
            (fields, p + render_fields(fields, indent.push('\t')).len() + indent.len() + 2),
        ),
    decreases fields, 0int,
{
    let deeper = indent.push('\t');
    let body = render_fields(fields, deeper);
    let piece = seq!['\n'] + body + indent + seq!['}'];
    lemma_at_bounds(s, p, piece);
    lemma_render_fields_front(fields, deeper);
    let first = render_field(fields[0], deeper);
    let later = render_fields(fields.drop_first(), deeper);
    let fl = first.len() as int;
    assert(piece =~= seq!['\n'] + first + (later + indent + seq!['}']));
    let k = p + 1 + deeper.len();
    assert(first[deeper.len() as int] == '"');
    assert forall|i: int| 0 <= i < 1 + deeper.len() implies #[trigger] piece[i] == '\t' || piece[i]
        == '\n' by {
        if i > 0 {
            assert(piece[i] == first[i - 1]);
        }
    }
    lemma_at_spaces(s, p, piece, 0, (1 + deeper.len()) as int);
    assert(piece[k - p] == first[deeper.len() as int]);
    lemma_at_byte(s, p, piece, k - p);
    lemma_ws_skip(s, p, k);
    lemma_at_part(s, p, piece, 1, 1 + fl);
    assert(piece.subrange(1, 1 + fl) =~= first);
    lemma_entry_roundtrip(s, p + 1, fields[0], deeper);
    let e = p + fl;
    assert(first[fl - 1] == '\n');
    lemma_at_part(s, p, piece, fl, piece.len() as int);
    assert(piece.subrange(fl, piece.len() as int) =~= seq!['\n'] + later + indent + seq!['}']);
    lemma_members_roundtrip(s, e, fields.drop_first(), indent);
    assert(seq![fields[0]] + fields.drop_first() =~= fields);
}

/// Top-level fields rendered after some line breaks and tabs, up to the end of the input,
/// read back as themselves.
#[verifier::rlimit(40)]
proof fn lemma_root_roundtrip(s: Seq<char>, p: int, lead: Seq<char>, fields: Seq<VdfField>)
    requires
        forall|i: int| 0 <= i < lead.len() ==> #[trigger] lead[i] == '\n' || lead[i] == '\t',
        at(s, p, lead + render_fields(fields, Seq::empty())),
        p + lead.len() + render_fields(fields, Seq::empty()).len() == s.len(),
    ensures
        root_from(s, p) == Ok::<(Seq<VdfField>, int), crate::error::VdfError>(
            (fields, s.len() as int),
        ),
    decreases fields.len(),
{
    let body = render_fields(fields, Seq::empty());
    let piece = lead + body;
    let q = p + lead.len();
    lemma_at_bounds(s, p, piece);
    assert forall|i: int| 0 <= i < lead.len() implies #[trigger] piece[i] == '\t' || piece[i]
        == '\n' by {
        assert(piece[i] == lead[i]);
    }
    lemma_at_spaces(s, p, piece, 0, lead.len() as int);
    if fields.len() == 0 {
        assert(body =~= Seq::<char>::empty());
        lemma_ws_skip(s, p, q);
        assert(fields =~= Seq::<VdfField>::empty());
    } else {
        lemma_render_fields_front(fields, Seq::empty());
        let first = render_field(fields[0], Seq::empty());
        let later = render_fields(fields.drop_first(), Seq::empty());
        let fl = first.len() as int;
        assert(first[0] == '"');
        assert(piece =~= lead + first + later);
        assert(piece[q - p] == first[0]);
        lemma_at_byte(s, p, piece, q - p);
        lemma_ws_skip(s, p, q);
        lemma_at_part(s, p, piece, lead.len() as int, lead.len() + fl);
        assert(piece.subrange(lead.len() as int, lead.len() + fl) =~= first);
        assert(Seq::<char>::empty().len() == 0);
        assert(all_tabs(Seq::<char>::empty()));
        lemma_entry_roundtrip(s, q, fields[0], Seq::empty());
        let e = q + fl - 1;
        assert(first[fl - 1] == '\n');
        lemma_at_part(s, p, piece, e - p, piece.len() as int);
        assert(piece.subrange(e - p, piece.len() as int) =~= seq!['\n'] + later);
        lemma_root_roundtrip(s, e, seq!['\n'], fields.drop_first());
        assert(seq![fields[0]] + fields.drop_first() =~= fields);
    }
}

/// A document reads back, from its rendering, as itself.
pub proof fn lemma_render_then_parse(doc: Seq<VdfField>)
    ensures
        document_fields(render_fields(doc, Seq::empty())) == Ok::<
            Seq<VdfField>,
            crate::error::VdfError,
        >(doc),
{
    let s = render_fields(doc, Seq::empty());
    assert(all_tabs(Seq::<char>::empty()));
    assert(Seq::<char>::empty() + s =~= s);
    assert(at(s, 0, Seq::<char>::empty() + s)) by {
        reveal(at);
    }
    if doc.len() > 0 {
        lemma_render_fields_front(doc, Seq::empty());
        assert(s[0] == '"');
    }
    assert(bom_len(s) == 0);
    lemma_root_roundtrip(s, 0, Seq::empty(), doc);
    lemma_ws_skip(s, s.len() as int, s.len() as int);
}

/// Reading back the file that a switch writes: parsing the rendering of the switched
/// document gives that document, and its accounts are the accounts before the switch with
/// the target the most recent one in the requested mode and every other account no longer
/// the most recent one.
pub proof fn lemma_switch_written_reads_back(
    doc: Seq<VdfField>,
    target: u64,
    mode: StartMode,
    auto_login_user: Option<Seq<char>>,
)
    requires
        users_fields(doc) is Ok,
    ensures
        document_fields(render_fields(activate_root(doc, target, mode), Seq::empty()))
            == Ok::<Seq<VdfField>, crate::error::VdfError>(activate_root(doc, target, mode)),
        users_fields(activate_root(doc, target, mode)) matches Ok(members) && account_records(
            members,
            auto_login_user,
        ) == switched_records(users_fields(doc).unwrap(), target, mode, auto_login_user),
{
    lemma_render_then_parse(activate_root(doc, target, mode));
    lemma_switch_read_back(doc, target, mode, auto_login_user);
}

} // verus!
