//! What a switch does to `loginusers.vdf`, stated over the document model: which fields it
//! may change, and what the accounts read back from the rewritten document are.

use vstd::prelude::*;

use crate::loginusers_vdf::{
    account_record, activated_record, account_records, activate_member, activate_members, activate_root,
    activate_user, first_selected_member, first_selected_member_from, flag, is_true_word,
    is_target_member, member_selected, text_or_empty, timestamp_of, upsert_text, users_fields,
};
use crate::steam::{AccountRecord, AccountSelector, StartMode};
use crate::text::{eq_ignore_case, parse_u64_spec, lemma_eq_ignore_case_equivalence, leading_spaces, trailing_spaces, trim};
use crate::vdf::{VdfField, VdfTree, find_key, lemma_find_key_exact, lemma_find_key_from, lemma_find_key_none, text_of};

verus! {

/// The names of the fields that a switch writes.
pub open spec fn is_switch_key(key: Seq<char>) -> bool {
    ||| eq_ignore_case(key, "MostRecent"@)
    ||| eq_ignore_case(key, "WantsOfflineMode"@)
    ||| eq_ignore_case(key, "SkipOfflineModeWarning"@)
}

/// `new` keeps every field of `old` in place with its key, and the value of every field whose
/// name is not `allowed`; fields added at the end have names that are `allowed`.
pub open spec fn keeps_fields_except(
    old: Seq<VdfField>,
    new: Seq<VdfField>,
    allowed: spec_fn(Seq<char>) -> bool,
) -> bool {
    &&& old.len() <= new.len()
    &&& forall|j: int| 0 <= j < old.len() ==> (#[trigger] new[j]).key == old[j].key
    &&& forall|j: int| 0 <= j < old.len() && !allowed(old[j].key) ==> #[trigger] new[j] == old[j]
    &&& forall|j: int| old.len() <= j < new.len() ==> allowed(#[trigger] new[j].key)
}

proof fn lemma_upsert_shape(fields: Seq<VdfField>, key: Seq<char>, value: Seq<char>)
    ensures
        keeps_fields_except(
            fields,
            upsert_text(fields, key, value),
            |k: Seq<char>| eq_ignore_case(k, key),
        ),
        upsert_text(fields, key, value).len() <= fields.len() + 1,
{
    lemma_find_key_from(fields, key, 0);
    lemma_eq_ignore_case_equivalence(key, key, key);
}

/// Reading a field back after setting a text: a name equal to the written one (ignoring
/// ASCII case) gives the text; any other name gives what it gave before.
pub proof fn lemma_text_of_upsert(
    fields: Seq<VdfField>,
    key: Seq<char>,
    value: Seq<char>,
    other: Seq<char>,
)
    ensures
        text_of(upsert_text(fields, key, value), other) == if eq_ignore_case(other, key) {
            Some(value)
        } else {
            text_of(fields, other)
        },
{
    let new = upsert_text(fields, key, value);
    lemma_find_key_from(fields, key, 0);
    lemma_find_key_from(fields, other, 0);
    lemma_find_key_from(new, other, 0);
    if eq_ignore_case(other, key) {
        match find_key(fields, key) {
            Some(i) => {
                lemma_eq_ignore_case_equivalence(fields[i].key, key, other);
                lemma_eq_ignore_case_equivalence(other, key, key);
                assert forall|j: int| 0 <= j < i implies !eq_ignore_case(
                    #[trigger] new[j].key,
                    other,
                ) by {
                    lemma_eq_ignore_case_equivalence(new[j].key, other, key);
                }
                lemma_find_key_exact(new, other, i);
            },
            None => {
                lemma_eq_ignore_case_equivalence(key, other, other);
                lemma_eq_ignore_case_equivalence(other, key, key);
                assert forall|j: int| 0 <= j < fields.len() implies !eq_ignore_case(
                    #[trigger] new[j].key,
                    other,
                ) by {
                    lemma_eq_ignore_case_equivalence(new[j].key, other, key);
                }
                lemma_find_key_exact(new, other, fields.len() as int);
            },
        }
    } else {
        // the written field, and a field appended with the written name, are not `other`
        lemma_eq_ignore_case_equivalence(key, other, other);
        match find_key(fields, key) {
            Some(i) => {
                assert(!eq_ignore_case(fields[i].key, other)) by {
                    lemma_eq_ignore_case_equivalence(other, fields[i].key, key);
                    lemma_eq_ignore_case_equivalence(fields[i].key, other, other);
                }
                match find_key(fields, other) {
                    Some(k) => {
                        assert(k != i);
                        lemma_find_key_exact(new, other, k);
                    },
                    None => {
                        lemma_find_key_none(new, other);
                    },
                }
            },
            None => {
                match find_key(fields, other) {
                    Some(k) => {
                        lemma_find_key_exact(new, other, k);
                    },
                    None => {
                        assert(!eq_ignore_case(new[fields.len() as int].key, other));
                        lemma_find_key_none(new, other);
                    },
                }
            },
        }
    }
}

proof fn lemma_keeps_compose(
    a: Seq<VdfField>,
    b: Seq<VdfField>,
    c: Seq<VdfField>,
    p: spec_fn(Seq<char>) -> bool,
    q: spec_fn(Seq<char>) -> bool,
)
    requires
        keeps_fields_except(a, b, p),
        keeps_fields_except(b, c, q),
        forall|k: Seq<char>| #[trigger] p(k) ==> is_switch_key(k),
        forall|k: Seq<char>| #[trigger] q(k) ==> is_switch_key(k),
    ensures
        keeps_fields_except(a, c, |k: Seq<char>| is_switch_key(k)),
{
    assert forall|j: int| 0 <= j < a.len() && !is_switch_key(a[j].key) implies #[trigger] c[j]
        == a[j] by {
        assert(!p(a[j].key));
        assert(b[j] == a[j]);
        assert(!q(b[j].key));
    }
    assert forall|j: int| a.len() <= j < c.len() implies is_switch_key(#[trigger] c[j].key) by {
        if j < b.len() {
            assert(p(b[j].key));
            assert(c[j].key == b[j].key);
        } else {
            assert(q(c[j].key));
        }
    }
}

proof fn lemma_keeps_widen(a: Seq<VdfField>, b: Seq<VdfField>, p: spec_fn(Seq<char>) -> bool)
    requires
        keeps_fields_except(a, b, p),
        forall|k: Seq<char>| #[trigger] p(k) ==> is_switch_key(k),
    ensures
        keeps_fields_except(a, b, |k: Seq<char>| is_switch_key(k)),
{
    assert forall|j: int| 0 <= j < a.len() && !is_switch_key(a[j].key) implies #[trigger] b[j]
        == a[j] by {
        assert(!p(a[j].key));
    }
    assert forall|j: int| a.len() <= j < b.len() implies is_switch_key(#[trigger] b[j].key) by {
        assert(p(b[j].key));
    }
}

/// A switch rewrites only `MostRecent`, `WantsOfflineMode` and `SkipOfflineModeWarning` of
/// a user: every other field keeps its name, position and value, and a field that is added
/// is added at the end under one of those three names.
pub proof fn lemma_switch_keeps_user_fields(fields: Seq<VdfField>, is_target: bool, mode: StartMode)
    ensures
        keeps_fields_except(
            fields,
            activate_user(fields, is_target, mode),
            |k: Seq<char>| is_switch_key(k),
        ),
{
    let p1 = |k: Seq<char>| eq_ignore_case(k, "MostRecent"@);
    let p2 = |k: Seq<char>| eq_ignore_case(k, "WantsOfflineMode"@);
    let p3 = |k: Seq<char>| eq_ignore_case(k, "SkipOfflineModeWarning"@);
    if is_target {
        let a = upsert_text(fields, "MostRecent"@, "1"@);
        lemma_upsert_shape(fields, "MostRecent"@, "1"@);
        match mode {
            StartMode::Express => {
                lemma_upsert_shape(a, "WantsOfflineMode"@, "0"@);
                lemma_keeps_compose(fields, a, upsert_text(a, "WantsOfflineMode"@, "0"@), p1, p2);
            },
            StartMode::Offline => {
                let b = upsert_text(a, "WantsOfflineMode"@, "1"@);
                lemma_upsert_shape(a, "WantsOfflineMode"@, "1"@);
                lemma_keeps_compose(fields, a, b, p1, p2);
                lemma_upsert_shape(b, "SkipOfflineModeWarning"@, "1"@);
                lemma_keeps_compose(
                    fields,
                    b,
                    upsert_text(b, "SkipOfflineModeWarning"@, "1"@),
                    |k: Seq<char>| is_switch_key(k),
                    p3,
                );
            },
        }
    } else {
        lemma_upsert_shape(fields, "MostRecent"@, "0"@);
        lemma_keeps_widen(fields, upsert_text(fields, "MostRecent"@, "0"@), p1);
    }
}

/// A switch leaves the document's shape alone: the same top-level fields in the same order,
/// all unchanged but the `users` object; in it, the same members in the same order, texts
/// unchanged, and each user object rewritten only in its switch fields.
pub proof fn lemma_switch_keeps_document(root: Seq<VdfField>, target: u64, mode: StartMode)
    requires
        users_fields(root) is Ok,
    ensures
        ({
            let new = activate_root(root, target, mode);
            let u = find_key(root, "users"@).unwrap();
            let members = users_fields(root).unwrap();
            &&& new.len() == root.len()
            &&& forall|j: int| 0 <= j < root.len() && j != u ==> #[trigger] new[j] == root[j]
            &&& new[u].key == root[u].key
            &&& users_fields(new) == Ok::<Seq<VdfField>, crate::error::VdfError>(
                activate_members(members, target, mode),
            )
            &&& activate_members(members, target, mode).len() == members.len()
            &&& forall|j: int|
                0 <= j < members.len() ==> {
                    let m = #[trigger] activate_members(members, target, mode)[j];
                    &&& m.key == members[j].key
                    &&& match members[j].value {
                        VdfTree::Text(_) => m == members[j],
                        VdfTree::Node(fields) => m.value matches VdfTree::Node(rewritten)
                            && keeps_fields_except(
                            fields,
                            rewritten,
                            |k: Seq<char>| is_switch_key(k),
                        ),
                    }
                }
        }),
{
    let new = activate_root(root, target, mode);
    let u = find_key(root, "users"@).unwrap();
    lemma_find_key_from(root, "users"@, 0);
    lemma_find_key_exact(new, "users"@, u);
    let members = users_fields(root).unwrap();
    assert forall|j: int| 0 <= j < members.len() implies {
        let m = #[trigger] activate_members(members, target, mode)[j];
        &&& m.key == members[j].key
        &&& match members[j].value {
            VdfTree::Text(_) => m == members[j],
            VdfTree::Node(fields) => m.value matches VdfTree::Node(rewritten) && keeps_fields_except(
                fields,
                rewritten,
                |k: Seq<char>| is_switch_key(k),
            ),
        }
    } by {
        if let VdfTree::Node(fields) = members[j].value {
            lemma_switch_keeps_user_fields(fields, is_target_member(members[j], target), mode);
        }
    }
}

// ---------------------------------------------------------------------------
// Reading accounts back
// ---------------------------------------------------------------------------

/// An account as a switch leaves it: the target becomes the most recent account in the
/// requested mode; any other account stops being the most recent one.
pub open spec fn switched_record(account: AccountRecord, is_target: bool, mode: StartMode) -> AccountRecord {
    if is_target {
        AccountRecord {
            most_recent: true,
            wants_offline_mode: mode == StartMode::Offline,
            ..account
        }
    } else {
        AccountRecord { most_recent: false, ..account }
    }
}

/// The accounts of the members, each as a switch to the account with Steam ID `target`
/// leaves it.
pub open spec fn switched_records(
    members: Seq<VdfField>,
    target: u64,
    mode: StartMode,
    auto_login_user: Option<Seq<char>>,
) -> Seq<AccountRecord>
    decreases members.len(),
{
    if members.len() == 0 {
        Seq::empty()
    } else {
        let rest = switched_records(members.drop_last(), target, mode, auto_login_user);
        match account_record(members.last(), auto_login_user) {
            Some(a) => rest.push(switched_record(a, is_target_member(members.last(), target), mode)),
            None => rest,
        }
    }
}

proof fn lemma_not_switch_names()
    ensures
        !is_switch_key("AccountName"@),
        !is_switch_key("PersonaName"@),
        !is_switch_key("RememberPassword"@),
        !is_switch_key("Timestamp"@),
        !eq_ignore_case("MostRecent"@, "WantsOfflineMode"@),
        !eq_ignore_case("MostRecent"@, "SkipOfflineModeWarning"@),
        !eq_ignore_case("WantsOfflineMode"@, "MostRecent"@),
        !eq_ignore_case("WantsOfflineMode"@, "SkipOfflineModeWarning"@),
        eq_ignore_case("MostRecent"@, "MostRecent"@),
        eq_ignore_case("WantsOfflineMode"@, "WantsOfflineMode"@),
{
    reveal_strlit("AccountName");
    reveal_strlit("PersonaName");
    reveal_strlit("RememberPassword");
    reveal_strlit("Timestamp");
    reveal_strlit("MostRecent");
    reveal_strlit("WantsOfflineMode");
    reveal_strlit("SkipOfflineModeWarning");
    assert(crate::text::ascii_lower("RememberPassword"@[0]) != crate::text::ascii_lower(
        "WantsOfflineMode"@[0],
    ));
    lemma_eq_ignore_case_equivalence("MostRecent"@, "MostRecent"@, "MostRecent"@);
    lemma_eq_ignore_case_equivalence("WantsOfflineMode"@, "WantsOfflineMode"@, "WantsOfflineMode"@);
}

proof fn lemma_flag_words()
    ensures
        is_true_word(trim("1"@)),
        !is_true_word(trim("0"@)),
{
    reveal_strlit("1");
    reveal_strlit("0");
    reveal_strlit("true");
    reveal_strlit("True");
    reveal_strlit("TRUE");
    let one = "1"@;
    let zero = "0"@;
    assert(leading_spaces(one) == 0);
    assert(leading_spaces(zero) == 0);
    assert(one.skip(0) =~= one);
    assert(zero.skip(0) =~= zero);
    assert(trailing_spaces(one) == 0);
    assert(trailing_spaces(zero) == 0);
    assert(one.take(1) =~= one);
    assert(zero.take(1) =~= zero);
    assert(trim(one) == one);
    assert(trim(zero) == zero);
    assert(zero != one);
    assert(zero != "true"@);
    assert(zero != "True"@);
    assert(zero != "TRUE"@);
}

/// Texts read under names that a user rewrite does not write stay as they were.
proof fn lemma_user_reads(fields: Seq<VdfField>, is_target: bool, mode: StartMode, other: Seq<char>)
    requires
        !is_switch_key(other),
    ensures
        text_of(activate_user(fields, is_target, mode), other) == text_of(fields, other),
{
    lemma_eq_ignore_case_equivalence(other, "MostRecent"@, "MostRecent"@);
    lemma_eq_ignore_case_equivalence(other, "WantsOfflineMode"@, "WantsOfflineMode"@);
    lemma_eq_ignore_case_equivalence(other, "SkipOfflineModeWarning"@, "SkipOfflineModeWarning"@);
    let a = upsert_text(fields, "MostRecent"@, if is_target {
        "1"@
    } else {
        "0"@
    });
    lemma_text_of_upsert(fields, "MostRecent"@, if is_target {
        "1"@
    } else {
        "0"@
    }, other);
    if is_target {
        lemma_text_of_upsert(a, "WantsOfflineMode"@, "0"@, other);
        lemma_text_of_upsert(a, "WantsOfflineMode"@, "1"@, other);
        let b = upsert_text(a, "WantsOfflineMode"@, "1"@);
        lemma_text_of_upsert(b, "SkipOfflineModeWarning"@, "1"@, other);
    }
}

proof fn lemma_member_read_back(
    member: VdfField,
    is_target: bool,
    mode: StartMode,
    auto_login_user: Option<Seq<char>>,
)
    ensures
        account_record(activate_member(member, is_target, mode), auto_login_user) == match account_record(
            member,
            auto_login_user,
        ) {
            Some(a) => Some(switched_record(a, is_target, mode)),
            None => None,
        },
{
    if let VdfTree::Node(fields) = member.value {
        let new = activate_user(fields, is_target, mode);
        lemma_not_switch_names();
        lemma_flag_words();
        lemma_user_reads(fields, is_target, mode, "AccountName"@);
        lemma_user_reads(fields, is_target, mode, "PersonaName"@);
        lemma_user_reads(fields, is_target, mode, "RememberPassword"@);
        lemma_user_reads(fields, is_target, mode, "Timestamp"@);
        assert(text_or_empty(new, "AccountName"@) == text_or_empty(fields, "AccountName"@));
        assert(text_or_empty(new, "PersonaName"@) == text_or_empty(fields, "PersonaName"@));
        assert(flag(new, "RememberPassword"@) == flag(fields, "RememberPassword"@));
        assert(timestamp_of(new) == timestamp_of(fields));
        let recent_text = if is_target {
            "1"@
        } else {
            "0"@
        };
        let a = upsert_text(fields, "MostRecent"@, recent_text);
        lemma_text_of_upsert(fields, "MostRecent"@, recent_text, "MostRecent"@);
        lemma_text_of_upsert(fields, "MostRecent"@, recent_text, "WantsOfflineMode"@);
        if is_target {
            lemma_text_of_upsert(a, "WantsOfflineMode"@, "0"@, "MostRecent"@);
            lemma_text_of_upsert(a, "WantsOfflineMode"@, "0"@, "WantsOfflineMode"@);
            lemma_text_of_upsert(a, "WantsOfflineMode"@, "1"@, "MostRecent"@);
            lemma_text_of_upsert(a, "WantsOfflineMode"@, "1"@, "WantsOfflineMode"@);
            let b = upsert_text(a, "WantsOfflineMode"@, "1"@);
            lemma_text_of_upsert(b, "SkipOfflineModeWarning"@, "1"@, "MostRecent"@);
            lemma_text_of_upsert(b, "SkipOfflineModeWarning"@, "1"@, "WantsOfflineMode"@);
        }
        assert(flag(new, "MostRecent"@) == is_target);
        if is_target {
            assert(flag(new, "WantsOfflineMode"@) == (mode == StartMode::Offline));
        } else {
            assert(flag(new, "WantsOfflineMode"@) == flag(fields, "WantsOfflineMode"@));
        }
    }
}

/// Reading the accounts back after a switch: the same accounts in the same order, the target
/// (every member of `users` whose key reads as the Steam ID `target`) the most recent in the requested mode, every other
/// account no longer the most recent one, and nothing else changed.
pub proof fn lemma_switch_read_back(
    root: Seq<VdfField>,
    target: u64,
    mode: StartMode,
    auto_login_user: Option<Seq<char>>,
)
    requires
        users_fields(root) is Ok,
    ensures
        users_fields(activate_root(root, target, mode)) matches Ok(members) && account_records(
            members,
            auto_login_user,
        ) == switched_records(users_fields(root).unwrap(), target, mode, auto_login_user),
{
    lemma_switch_keeps_document(root, target, mode);
    lemma_members_read_back(users_fields(root).unwrap(), target, mode, auto_login_user);
}

proof fn lemma_members_read_back(
    members: Seq<VdfField>,
    target: u64,
    mode: StartMode,
    auto_login_user: Option<Seq<char>>,
)
    ensures
        account_records(activate_members(members, target, mode), auto_login_user)
            == switched_records(members, target, mode, auto_login_user),
    decreases members.len(),
{
    if members.len() > 0 {
        let new = activate_members(members, target, mode);
        assert(new.drop_last() =~= activate_members(members.drop_last(), target, mode));
        lemma_members_read_back(members.drop_last(), target, mode, auto_login_user);
        lemma_member_read_back(members.last(), is_target_member(members.last(), target), mode, auto_login_user);
        assert(new.last() == activate_member(members.last(), is_target_member(members.last(), target), mode));
    } else {
        assert(activate_members(members, target, mode) =~= Seq::<VdfField>::empty());
    }
}

// ---------------------------------------------------------------------------
// Switching twice
// ---------------------------------------------------------------------------

/// Setting a field to the text it already reads changes nothing.
proof fn lemma_upsert_same(fields: Seq<VdfField>, key: Seq<char>, value: Seq<char>)
    requires
        text_of(fields, key) == Some(value),
    ensures
        upsert_text(fields, key, value) == fields,
{
    lemma_find_key_from(fields, key, 0);
    let i = find_key(fields, key)->Some_0;
    assert(fields.update(i, VdfField { key: fields[i].key, value: VdfTree::Text(value) }) =~= fields);
}

proof fn lemma_user_twice(fields: Seq<VdfField>, is_target: bool, mode: StartMode)
    ensures
        activate_user(activate_user(fields, is_target, mode), is_target, mode) == activate_user(
            fields,
            is_target,
            mode,
        ),
{
    lemma_not_switch_names();
    reveal_strlit("SkipOfflineModeWarning");
    reveal_strlit("MostRecent");
    reveal_strlit("WantsOfflineMode");
    lemma_eq_ignore_case_equivalence("SkipOfflineModeWarning"@, "SkipOfflineModeWarning"@, "SkipOfflineModeWarning"@);
    assert(!eq_ignore_case("SkipOfflineModeWarning"@, "MostRecent"@));
    assert(!eq_ignore_case("SkipOfflineModeWarning"@, "WantsOfflineMode"@));
    let g = activate_user(fields, is_target, mode);
    let recent = if is_target {
        "1"@
    } else {
        "0"@
    };
    let a = upsert_text(fields, "MostRecent"@, recent);
    lemma_text_of_upsert(fields, "MostRecent"@, recent, "MostRecent"@);
    if is_target {
        let offline = if mode == StartMode::Offline {
            "1"@
        } else {
            "0"@
        };
        let b = upsert_text(a, "WantsOfflineMode"@, offline);
        lemma_text_of_upsert(a, "WantsOfflineMode"@, offline, "MostRecent"@);
        lemma_text_of_upsert(a, "WantsOfflineMode"@, offline, "WantsOfflineMode"@);
        match mode {
            StartMode::Express => {
                assert(g == b);
                lemma_upsert_same(g, "MostRecent"@, recent);
                lemma_upsert_same(g, "WantsOfflineMode"@, offline);
            },
            StartMode::Offline => {
                let c = upsert_text(b, "SkipOfflineModeWarning"@, "1"@);
                lemma_text_of_upsert(b, "SkipOfflineModeWarning"@, "1"@, "MostRecent"@);
                lemma_text_of_upsert(b, "SkipOfflineModeWarning"@, "1"@, "WantsOfflineMode"@);
                lemma_text_of_upsert(b, "SkipOfflineModeWarning"@, "1"@, "SkipOfflineModeWarning"@);
                assert(g == c);
                lemma_upsert_same(g, "MostRecent"@, recent);
                lemma_upsert_same(g, "WantsOfflineMode"@, offline);
                lemma_upsert_same(g, "SkipOfflineModeWarning"@, "1"@);
            },
        }
    } else {
        lemma_upsert_same(g, "MostRecent"@, recent);
    }
}

proof fn lemma_members_twice(members: Seq<VdfField>, target: u64, mode: StartMode)
    ensures
        activate_members(activate_members(members, target, mode), target, mode) == activate_members(
            members,
            target,
            mode,
        ),
{
    let once = activate_members(members, target, mode);
    assert forall|j: int| 0 <= j < members.len() implies #[trigger] activate_members(once, target, mode)[j]
        == once[j] by {
        if let VdfTree::Node(fields) = members[j].value {
            lemma_user_twice(fields, is_target_member(members[j], target), mode);
            assert(once[j].key == members[j].key);
        }
    }
    assert(activate_members(once, target, mode) =~= once);
}

/// After a switch, the selector designates the same member of `users` as before.
proof fn lemma_selection_after_switch(
    members: Seq<VdfField>,
    target: u64,
    mode: StartMode,
    selector: AccountSelector,
    from: int,
)
    requires
        0 <= from,
    ensures
        first_selected_member_from(activate_members(members, target, mode), selector, from)
            == first_selected_member_from(members, selector, from),
    decreases members.len() - from,
{
    if from < members.len() {
        lemma_member_read_back(members[from], is_target_member(members[from], target), mode, None);
        assert(activate_members(members, target, mode)[from] == activate_member(
            members[from],
            is_target_member(members[from], target),
            mode,
        ));
        assert(member_selected(activate_members(members, target, mode)[from], selector)
            == member_selected(members[from], selector));
        lemma_selection_after_switch(members, target, mode, selector, from + 1);
    }
}

/// Switching twice with the same request gives what switching once gives: the selector
/// still designates the same member, with the same Steam ID, switching again changes
/// nothing, and the account it returns is the one the first switch returned.
pub proof fn lemma_switch_twice(root: Seq<VdfField>, selector: AccountSelector, mode: StartMode)
    requires
        users_fields(root) matches Ok(members) && first_selected_member(members, selector) is Some,
    ensures
        ({
            let members = users_fields(root)->Ok_0;
            let m = first_selected_member(members, selector)->Some_0;
            let account = account_record(members[m], None)->Some_0;
            let once = activate_root(root, account.steam_id64, mode);
            &&& users_fields(once) matches Ok(members2)
            &&& first_selected_member(members2, selector) == Some(m)
            &&& account_record(members2[m], None) matches Some(account2)
            &&& account2.steam_id64 == account.steam_id64
            &&& forall|auto: Seq<char>|
                #[trigger] activated_record(account2, mode, auto) == activated_record(
                    account,
                    mode,
                    auto,
                )
            &&& activate_root(once, account.steam_id64, mode) == once
        }),
{
    let members = users_fields(root)->Ok_0;
    let m = first_selected_member(members, selector)->Some_0;
    crate::loginusers_vdf::lemma_first_selected_member_from(members, selector, 0);
    let account = account_record(members[m], None)->Some_0;
    let id = account.steam_id64;
    let once = activate_root(root, id, mode);
    lemma_switch_keeps_document(root, id, mode);
    lemma_selection_after_switch(members, id, mode, selector, 0);
    let u = find_key(root, "users"@)->Some_0;
    lemma_find_key_from(root, "users"@, 0);
    lemma_find_key_exact(once, "users"@, u);
    lemma_members_twice(members, id, mode);
    lemma_member_read_back(members[m], is_target_member(members[m], id), mode, None);
    assert(activate_members(members, id, mode)[m] == activate_member(
        members[m],
        is_target_member(members[m], id),
        mode,
    ));
    assert(activate_root(once, id, mode) =~= once);
}

// ---------------------------------------------------------------------------
// The flags a switch writes
// ---------------------------------------------------------------------------

/// The flags that a switch writes into a user object, read back as the reader reads a
/// field (the first field of that name, ignoring ASCII case): `MostRecent` reads "1" for the
/// target and "0" for any other user; the target's `WantsOfflineMode` reads "1" in offline
/// mode and "0" in express mode, and in offline mode its `SkipOfflineModeWarning` reads "1",
/// whatever the fields held before. Every other name reads as before: any other user's
/// `WantsOfflineMode` and `SkipOfflineModeWarning`, and the target's
/// `SkipOfflineModeWarning` in express mode, are left as they were.
pub proof fn lemma_switch_flags(fields: Seq<VdfField>, is_target: bool, mode: StartMode)
    ensures
        forall|k: Seq<char>|
            !eq_ignore_case(k, "MostRecent"@) && !(is_target && eq_ignore_case(
                k,
                "WantsOfflineMode"@,
            )) && !(is_target && mode == StartMode::Offline && eq_ignore_case(
                k,
                "SkipOfflineModeWarning"@,
            )) ==> #[trigger] text_of(activate_user(fields, is_target, mode), k) == text_of(
                fields,
                k,
            ),
        text_of(activate_user(fields, is_target, mode), "MostRecent"@) == Some(
            if is_target {
                "1"@
            } else {
                "0"@
            },
        ),
        is_target ==> text_of(activate_user(fields, is_target, mode), "WantsOfflineMode"@) == Some(
            if mode == StartMode::Offline {
                "1"@
            } else {
                "0"@
            },
        ),
        is_target && mode == StartMode::Offline ==> text_of(
            activate_user(fields, is_target, mode),
            "SkipOfflineModeWarning"@,
        ) == Some("1"@),
{
    lemma_not_switch_names();
    reveal_strlit("SkipOfflineModeWarning");
    reveal_strlit("MostRecent");
    reveal_strlit("WantsOfflineMode");
    lemma_eq_ignore_case_equivalence(
        "SkipOfflineModeWarning"@,
        "SkipOfflineModeWarning"@,
        "SkipOfflineModeWarning"@,
    );
    assert(!eq_ignore_case("MostRecent"@, "SkipOfflineModeWarning"@));
    assert(!eq_ignore_case("WantsOfflineMode"@, "SkipOfflineModeWarning"@));
    let recent = if is_target {
        "1"@
    } else {
        "0"@
    };
    let a = upsert_text(fields, "MostRecent"@, recent);
    lemma_text_of_upsert(fields, "MostRecent"@, recent, "MostRecent"@);
    assert forall|k: Seq<char>|
        !eq_ignore_case(k, "MostRecent"@) && !(is_target && eq_ignore_case(k, "WantsOfflineMode"@))
            && !(is_target && mode == StartMode::Offline && eq_ignore_case(
            k,
            "SkipOfflineModeWarning"@,
        )) implies #[trigger] text_of(activate_user(fields, is_target, mode), k) == text_of(
        fields,
        k,
    ) by {
        lemma_text_of_upsert(fields, "MostRecent"@, recent, k);
        if is_target {
            let offline = if mode == StartMode::Offline {
                "1"@
            } else {
                "0"@
            };
            let b = upsert_text(a, "WantsOfflineMode"@, offline);
            lemma_text_of_upsert(a, "WantsOfflineMode"@, offline, k);
            if mode == StartMode::Offline {
                lemma_text_of_upsert(b, "SkipOfflineModeWarning"@, "1"@, k);
            }
        }
    }
    if is_target {
        let offline = if mode == StartMode::Offline {
            "1"@
        } else {
            "0"@
        };
        let b = upsert_text(a, "WantsOfflineMode"@, offline);
        lemma_text_of_upsert(a, "WantsOfflineMode"@, offline, "MostRecent"@);
        lemma_text_of_upsert(a, "WantsOfflineMode"@, offline, "WantsOfflineMode"@);
        if mode == StartMode::Offline {
            lemma_text_of_upsert(b, "SkipOfflineModeWarning"@, "1"@, "MostRecent"@);
            lemma_text_of_upsert(b, "SkipOfflineModeWarning"@, "1"@, "WantsOfflineMode"@);
            lemma_text_of_upsert(b, "SkipOfflineModeWarning"@, "1"@, "SkipOfflineModeWarning"@);
        }
    }
}

/// What a switch to the account with Steam ID `id` leaves in `users`, member by member: a
/// user object whose key reads as `id` reads `MostRecent` "1", `WantsOfflineMode` "1" in
/// offline mode and "0" in express mode, and in offline mode `SkipOfflineModeWarning` "1";
/// every other user object reads `MostRecent` "0"; any other name reads as before.
pub proof fn lemma_switch_sets_flags(root: Seq<VdfField>, id: u64, mode: StartMode)
    requires
        users_fields(root) is Ok,
    ensures
        ({
            let members = users_fields(root)->Ok_0;
            users_fields(activate_root(root, id, mode)) matches Ok(switched) && switched.len()
                == members.len() && forall|j: int|
                0 <= j < members.len() && members[j].value is Node ==> {
                    let target = parse_u64_spec(members[j].key) == Some(id);
                    &&& (#[trigger] switched[j]).value is Node
                    &&& text_of(switched[j].value->Node_0, "MostRecent"@) == Some(
                        if target {
                            "1"@
                        } else {
                            "0"@
                        },
                    )
                    &&& target ==> text_of(switched[j].value->Node_0, "WantsOfflineMode"@) == Some(
                        if mode == StartMode::Offline {
                            "1"@
                        } else {
                            "0"@
                        },
                    )
                    &&& target && mode == StartMode::Offline ==> text_of(
                        switched[j].value->Node_0,
                        "SkipOfflineModeWarning"@,
                    ) == Some("1"@)
                    &&& forall|k: Seq<char>|
                        !eq_ignore_case(k, "MostRecent"@) && !(target && eq_ignore_case(
                            k,
                            "WantsOfflineMode"@,
                        )) && !(target && mode == StartMode::Offline && eq_ignore_case(
                            k,
                            "SkipOfflineModeWarning"@,
                        )) ==> #[trigger] text_of(switched[j].value->Node_0, k) == text_of(
                            members[j].value->Node_0,
                            k,
                        )
                }
        }),
{
    let members = users_fields(root)->Ok_0;
    lemma_switch_keeps_document(root, id, mode);
    let switched = activate_members(members, id, mode);
    assert forall|j: int| 0 <= j < members.len() && members[j].value is Node implies {
        let target = parse_u64_spec(members[j].key) == Some(id);
        &&& (#[trigger] switched[j]).value is Node
        &&& text_of(switched[j].value->Node_0, "MostRecent"@) == Some(
            if target {
                "1"@
            } else {
                "0"@
            },
        )
        &&& target ==> text_of(switched[j].value->Node_0, "WantsOfflineMode"@) == Some(
            if mode == StartMode::Offline {
                "1"@
            } else {
                "0"@
            },
        )
        &&& target && mode == StartMode::Offline ==> text_of(
            switched[j].value->Node_0,
            "SkipOfflineModeWarning"@,
        ) == Some("1"@)
        &&& forall|k: Seq<char>|
            !eq_ignore_case(k, "MostRecent"@) && !(target && eq_ignore_case(k, "WantsOfflineMode"@))
                && !(target && mode == StartMode::Offline && eq_ignore_case(
                k,
                "SkipOfflineModeWarning"@,
            )) ==> #[trigger] text_of(switched[j].value->Node_0, k) == text_of(
                members[j].value->Node_0,
                k,
            )
    } by {
        let fields = members[j].value->Node_0;
        lemma_switch_flags(fields, is_target_member(members[j], id), mode);
    }
}

} // verus!
