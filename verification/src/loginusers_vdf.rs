//! `loginusers.vdf`: the remembered accounts that Steam keeps, read from and written back to
//! the KeyValues document without touching anything the switch does not need.

use vstd::prelude::*;
use vstd::pervasive::VecAdditionalExecFns;

use crate::error::VdfError;
use crate::steam::{
    AccountRecord, AccountSelector, StartMode, SteamAccount, format_timestamp, records, selects,
};
use crate::text::{
    chars_of, empty_text, owned, parse_i64, parse_i64_spec, parse_u64,
    parse_u64_spec, same_text, trim, trimmed_equals,
};
use crate::vdf::{
    VdfEntry, VdfField, VdfObject, VdfTree, VdfValue, fields_of, find_entry, find_key,
    lemma_fields_of_index, text_of,
};
use crate::vdf_parse::{Parser, document_fields};
use crate::vdf_render::{render_fields, render_object};

verus! {

/// A parsed `loginusers.vdf` document.
#[derive(Debug)]
pub struct LoginUsersVdf {
    root: VdfObject,
}

impl View for LoginUsersVdf {
    type V = Seq<VdfField>;

    closed spec fn view(&self) -> Seq<VdfField> {
        self.root.fields()
    }
}

// ---------------------------------------------------------------------------
// Reading accounts
// ---------------------------------------------------------------------------

/// The fields of the `users` object: the first top-level field named `users` (ignoring
/// ASCII case), which must hold an object.
pub open spec fn users_fields(root: Seq<VdfField>) -> Result<Seq<VdfField>, VdfError> {
    match find_key(root, "users"@) {
        Some(i) => match root[i].value {
            VdfTree::Node(members) => Ok(members),
            VdfTree::Text(_) => Err(VdfError::UsersNotObject),
        },
        None => Err(VdfError::MissingUsers),
    }
}

/// The words that count as a true flag once trimmed.
pub open spec fn is_true_word(w: Seq<char>) -> bool {
    w == "1"@ || w == "true"@ || w == "True"@ || w == "TRUE"@
}

/// A flag of a user: the text of its field, trimmed, is one of the true words.
pub open spec fn flag(fields: Seq<VdfField>, key: Seq<char>) -> bool {
    match text_of(fields, key) {
        Some(v) => is_true_word(trim(v)),
        None => false,
    }
}

/// The text of a field, or the empty text when there is none.
pub open spec fn text_or_empty(fields: Seq<VdfField>, key: Seq<char>) -> Seq<char> {
    match text_of(fields, key) {
        Some(v) => v,
        None => Seq::empty(),
    }
}

/// The login timestamp of a user: its `Timestamp` read as an `i64`, else 0.
pub open spec fn timestamp_of(fields: Seq<VdfField>) -> i64 {
    match text_of(fields, "Timestamp"@) {
        Some(v) => match parse_i64_spec(v) {
            Some(t) => t,
            None => 0,
        },
        None => 0,
    }
}

/// The account that a member of `users` stands for: an object whose key is a `u64`.
pub open spec fn account_record(member: VdfField, auto_login_user: Option<Seq<char>>) -> Option<
    AccountRecord,
> {
    match member.value {
        VdfTree::Text(_) => None,
        VdfTree::Node(fields) => match parse_u64_spec(member.key) {
            None => None,
            Some(id) => {
                let name = text_or_empty(fields, "AccountName"@);
                Some(
                    AccountRecord {
                        steam_id64: id,
                        account_name: name,
                        persona_name: text_or_empty(fields, "PersonaName"@),
                        remember_password: flag(fields, "RememberPassword"@),
                        most_recent: flag(fields, "MostRecent"@),
                        wants_offline_mode: flag(fields, "WantsOfflineMode"@),
                        last_login_timestamp: timestamp_of(fields),
                        is_auto_login_user: match auto_login_user {
                            Some(a) => name.len() > 0 && a == name,
                            None => false,
                        },
                    },
                )
            },
        },
    }
}

/// The accounts of the members of `users`, in file order.
pub open spec fn account_records(
    members: Seq<VdfField>,
    auto_login_user: Option<Seq<char>>,
) -> Seq<AccountRecord>
    decreases members.len(),
{
    if members.len() == 0 {
        Seq::empty()
    } else {
        let rest = account_records(members.drop_last(), auto_login_user);
        match account_record(members.last(), auto_login_user) {
            Some(a) => rest.push(a),
            None => rest,
        }
    }
}

pub open spec fn text_view(t: Option<&str>) -> Option<Seq<char>> {
    match t {
        Some(s) => Some(s@),
        None => None,
    }
}

/// Position of the first account that the selector designates.
pub open spec fn first_selected_from(
    accounts: Seq<AccountRecord>,
    selector: AccountSelector,
    from: int,
) -> Option<int>
    decreases accounts.len() - from,
{
    if from < 0 || from >= accounts.len() {
        None
    } else if selects(selector, accounts[from]) {
        Some(from)
    } else {
        first_selected_from(accounts, selector, from + 1)
    }
}

pub open spec fn first_selected(accounts: Seq<AccountRecord>, selector: AccountSelector) -> Option<
    int,
> {
    first_selected_from(accounts, selector, 0)
}

pub proof fn lemma_first_selected_from(
    accounts: Seq<AccountRecord>,
    selector: AccountSelector,
    from: int,
)
    requires
        0 <= from,
    ensures
        first_selected_from(accounts, selector, from) matches Some(i) ==> from <= i < accounts.len()
            && selects(selector, accounts[i]),
        first_selected_from(accounts, selector, from) matches Some(i) ==> forall|j: int|
            from <= j < i ==> !selects(selector, #[trigger] accounts[j]),
        first_selected_from(accounts, selector, from) is None ==> forall|j: int|
            from <= j < accounts.len() ==> !selects(selector, #[trigger] accounts[j]),
    decreases accounts.len() - from,
{
    if from < accounts.len() && !selects(selector, accounts[from]) {
        lemma_first_selected_from(accounts, selector, from + 1);
    }
}

/// The first selected account is an account that the selector designates.
pub proof fn lemma_first_selected(accounts: Seq<AccountRecord>, selector: AccountSelector)
    ensures
        first_selected(accounts, selector) matches Some(i) ==> 0 <= i < accounts.len() && selects(
            selector,
            accounts[i],
        ),
{
    lemma_first_selected_from(accounts, selector, 0);
}

/// Whether a member of `users` is an account that the selector designates.
pub open spec fn member_selected(member: VdfField, selector: AccountSelector) -> bool {
    account_record(member, None) matches Some(a) && selects(selector, a)
}

/// Position, among the members of `users` from `from` on, of the first account that the
/// selector designates.
pub open spec fn first_selected_member_from(
    members: Seq<VdfField>,
    selector: AccountSelector,
    from: int,
) -> Option<int>
    decreases members.len() - from,
{
    if from < 0 || from >= members.len() {
        None
    } else if member_selected(members[from], selector) {
        Some(from)
    } else {
        first_selected_member_from(members, selector, from + 1)
    }
}

/// Position, among the members of `users`, of the first account that the selector
/// designates: the member that a switch rewrites as the target.
pub open spec fn first_selected_member(members: Seq<VdfField>, selector: AccountSelector) -> Option<
    int,
> {
    first_selected_member_from(members, selector, 0)
}

pub proof fn lemma_first_selected_member_from(
    members: Seq<VdfField>,
    selector: AccountSelector,
    from: int,
)
    requires
        0 <= from,
    ensures
        match first_selected_member_from(members, selector, from) {
            Some(m) => from <= m < members.len() && member_selected(members[m], selector)
                && forall|j: int|
                from <= j < m ==> !member_selected(#[trigger] members[j], selector),
            None => forall|j: int|
                from <= j < members.len() ==> !member_selected(#[trigger] members[j], selector),
        },
    decreases members.len() - from,
{
    if from < members.len() && !member_selected(members[from], selector) {
        lemma_first_selected_member_from(members, selector, from + 1);
    }
}

// ---------------------------------------------------------------------------
// Rewriting
// ---------------------------------------------------------------------------

/// Sets a field to a text: the first field named `key` (ignoring ASCII case) keeps its
/// spelling and position and gets the text; without one, a field `key` is appended.
pub open spec fn upsert_text(fields: Seq<VdfField>, key: Seq<char>, value: Seq<char>) -> Seq<
    VdfField,
> {
    match find_key(fields, key) {
        Some(i) => fields.update(i, VdfField { key: fields[i].key, value: VdfTree::Text(value) }),
        None => fields.push(VdfField { key, value: VdfTree::Text(value) }),
    }
}

/// The fields of a user after a switch: the target becomes the most recent account and
/// gets the mode's offline flags; every other user stops being the most recent.
pub open spec fn activate_user(fields: Seq<VdfField>, is_target: bool, mode: StartMode) -> Seq<
    VdfField,
> {
    if is_target {
        let recent = upsert_text(fields, "MostRecent"@, "1"@);
        match mode {
            StartMode::Express => upsert_text(recent, "WantsOfflineMode"@, "0"@),
            StartMode::Offline => upsert_text(
                upsert_text(recent, "WantsOfflineMode"@, "1"@),
                "SkipOfflineModeWarning"@,
                "1"@,
            ),
        }
    } else {
        upsert_text(fields, "MostRecent"@, "0"@)
    }
}

pub open spec fn activate_member(member: VdfField, is_target: bool, mode: StartMode) -> VdfField {
    match member.value {
        VdfTree::Node(fields) => VdfField {
            key: member.key,
            value: VdfTree::Node(activate_user(fields, is_target, mode)),
        },
        VdfTree::Text(_) => member,
    }
}

/// A member of `users` that stands for the account with Steam ID `id`: its key reads as
/// that number.
pub open spec fn is_target_member(member: VdfField, id: u64) -> bool {
    parse_u64_spec(member.key) == Some(id)
}

/// The members of `users` after a switch to the account with Steam ID `id`: every member
/// whose key reads as `id` becomes the target.
pub open spec fn activate_members(members: Seq<VdfField>, id: u64, mode: StartMode) -> Seq<
    VdfField,
> {
    Seq::new(
        members.len(),
        |i: int| activate_member(members[i], is_target_member(members[i], id), mode),
    )
}

/// The document after a switch to the account with Steam ID `id`: the `users` object
/// rewritten member by member, every other top-level field unchanged.
pub open spec fn activate_root(root: Seq<VdfField>, id: u64, mode: StartMode) -> Seq<
    VdfField,
> {
    match find_key(root, "users"@) {
        Some(i) => match root[i].value {
            VdfTree::Node(members) => root.update(
                i,
                VdfField {
                    key: root[i].key,
                    value: VdfTree::Node(activate_members(members, id, mode)),
                },
            ),
            VdfTree::Text(_) => root,
        },
        None => root,
    }
}

/// The account returned by a switch: the selected account, now the most recent one, in the
/// requested mode, marked as the auto-login user when its name is `auto_login_user`.
pub open spec fn activated_record(
    account: AccountRecord,
    mode: StartMode,
    auto_login_user: Seq<char>,
) -> AccountRecord {
    AccountRecord {
        most_recent: true,
        wants_offline_mode: mode == StartMode::Offline,
        is_auto_login_user: account.account_name == auto_login_user,
        ..account
    }
}

// ---------------------------------------------------------------------------
// Implementation
// ---------------------------------------------------------------------------

fn get_string(object: &VdfObject, key: &str) -> (r: Option<String>)
    ensures
        match r {
            Some(v) => text_of(object.fields(), key@) == Some(v@),
            None => text_of(object.fields(), key@) == None::<Seq<char>>,
        },
{
    match find_entry(&object.entries, key) {
        Some(i) => {
            proof {
                lemma_fields_of_index(object.entries@, i as int);
            }
            match &object.entries[i].value {
                VdfValue::String(value) => Some(value.clone()),
                VdfValue::Object(_) => None,
            }
        },
        None => None,
    }
}

fn get_text_or_empty(object: &VdfObject, key: &str) -> (r: String)
    ensures
        r@ == text_or_empty(object.fields(), key@),
{
    match get_string(object, key) {
        Some(v) => v,
        None => empty_text(),
    }
}

fn parse_bool(value: &str) -> (r: bool)
    ensures
        r == is_true_word(trim(value@)),
{
    trimmed_equals(value, "1") || trimmed_equals(value, "true") || trimmed_equals(value, "True")
        || trimmed_equals(value, "TRUE")
}

fn get_bool(object: &VdfObject, key: &str) -> (r: bool)
    ensures
        r == flag(object.fields(), key@),
{
    match get_string(object, key) {
        Some(v) => parse_bool(v.as_str()),
        None => false,
    }
}

fn get_i64(object: &VdfObject, key: &str) -> (r: Option<i64>)
    ensures
        r == (match text_of(object.fields(), key@) {
            Some(v) => parse_i64_spec(v),
            None => None,
        }),
{
    match get_string(object, key) {
        Some(v) => parse_i64(v.as_str()),
        None => None,
    }
}

fn account_from_entry(entry: &VdfEntry, auto_login_user: Option<&str>) -> (r: Option<SteamAccount>)
    ensures
        match r {
            Some(a) => account_record(entry.field(), text_view(auto_login_user)) == Some(a.record())
                && a.time_consistent(),
            None => account_record(entry.field(), text_view(auto_login_user)) == None::<
                AccountRecord,
            >,
        },
{
    let user = match &entry.value {
        VdfValue::Object(user) => user,
        VdfValue::String(_) => {
            return None;
        },
    };
    let steam_id64 = match parse_u64(entry.key.as_str()) {
        Some(value) => value,
        None => {
            return None;
        },
    };
    let account_name = get_text_or_empty(user, "AccountName");
    let persona_name = get_text_or_empty(user, "PersonaName");
    let remember_password = get_bool(user, "RememberPassword");
    let most_recent = get_bool(user, "MostRecent");
    let wants_offline_mode = get_bool(user, "WantsOfflineMode");
    let timestamp: i64 = match get_i64(user, "Timestamp") {
        Some(t) => t,
        None => 0,
    };
    let is_auto_login_user = match auto_login_user {
        Some(value) => {
            let empty_name = account_name.as_str().is_empty();
            let same = same_text(value, account_name.as_str());
            !empty_name && same
        },
        None => false,
    };
    let last_login_time = format_timestamp(timestamp);
    Some(
        SteamAccount {
            steam_id64,
            account_name,
            persona_name,
            remember_password,
            most_recent,
            wants_offline_mode,
            last_login_timestamp: timestamp,
            last_login_time,
            is_auto_login_user,
        },
    )
}

fn users_index(root: &VdfObject) -> (r: Result<usize, VdfError>)
    ensures
        match users_fields(root.fields()) {
            Ok(members) => r matches Ok(i) && find_key(root.fields(), "users"@) == Some(i as int)
                && i < root.entries@.len() && root.entries@[i as int].value is Object
                && root.fields()[i as int].value == VdfTree::Node(members),
            Err(e) => r == Err::<usize, VdfError>(e),
        },
{
    match find_entry(&root.entries, "users") {
        Some(i) => {
            proof {
                lemma_fields_of_index(root.entries@, i as int);
            }
            match &root.entries[i].value {
                VdfValue::Object(_) => Ok(i),
                VdfValue::String(_) => Err(VdfError::UsersNotObject),
            }
        },
        None => Err(VdfError::MissingUsers),
    }
}

fn upsert_string(object: &mut VdfObject, key: &str, value: &str)
    ensures
        final(object).fields() == upsert_text(old(object).fields(), key@, value@),
{
    let ghost before = object.entries@;
    match find_entry(&object.entries, key) {
        Some(i) => {
            proof {
                lemma_fields_of_index(object.entries@, i as int);
            }
            let kept = object.entries[i].key.clone();
            object.entries.set(i, VdfEntry { key: kept, value: VdfValue::String(owned(value)) });
            proof {
                assert(fields_of(object.entries@) =~= upsert_text(fields_of(before), key@, value@));
            }
        },
        None => {
            object.entries.push(VdfEntry { key: owned(key), value: VdfValue::String(owned(value)) });
            proof {
                assert(fields_of(object.entries@) =~= upsert_text(fields_of(before), key@, value@));
            }
        },
    }
}

fn activate_object(object: &mut VdfObject, is_target: bool, mode: StartMode)
    ensures
        final(object).fields() == activate_user(old(object).fields(), is_target, mode),
{
    if is_target {
        upsert_string(object, "MostRecent", "1");
        match mode {
            StartMode::Express => {
                upsert_string(object, "WantsOfflineMode", "0");
            },
            StartMode::Offline => {
                upsert_string(object, "WantsOfflineMode", "1");
                upsert_string(object, "SkipOfflineModeWarning", "1");
            },
        }
    } else {
        upsert_string(object, "MostRecent", "0");
    }
}

impl LoginUsersVdf {
    /// Reads a document; a leading byte order mark is ignored.
    pub fn parse(input: &str) -> (r: Result<Self, VdfError>)
        ensures
            match document_fields(input@) {
                Ok(fields) => r matches Ok(v) && v@ == fields,
                Err(e) => r matches Err(x) && x == e,
            },
    {
        let chars = chars_of(input);
        let marked = chars.len() >= 1 && chars[0] == '\u{feff}';
        let mut parser = Parser::new(chars);
        if marked {
            parser.position = 1;
        }
        let root = parser.parse_root()?;
        parser.skip_ws();
        if !parser.is_eof() {
            return Err(VdfError::TrailingContent);
        }
        Ok(LoginUsersVdf { root })
    }

    /// Writes the document back as text, without byte order mark.
    pub fn render(&self) -> (r: String)
        ensures
            r@ == render_fields(self@, Seq::empty()),
    {
        let mut output = empty_text();
        let indent = empty_text();
        render_object(&self.root, &indent, &mut output);
        output
    }

    /// The remembered accounts, in file order; an account is the auto-login user when its
    /// non-empty name is `auto_login_user`.
    pub fn accounts(&self, auto_login_user: Option<&str>) -> (r: Result<Vec<SteamAccount>, VdfError>)
        ensures
            match users_fields(self@) {
                Ok(members) => r matches Ok(v) && records(v@) == account_records(
                    members,
                    text_view(auto_login_user),
                ) && forall|i: int| 0 <= i < v@.len() ==> (#[trigger] v@[i]).time_consistent(),
                Err(e) => r matches Err(x) && x == e,
            },
    {
        let ui = users_index(&self.root)?;
        let users = match &self.root.entries[ui].value {
            VdfValue::Object(users) => users,
            VdfValue::String(_) => {
                return Err(VdfError::UsersNotObject);
            },
        };
        let ghost members = users.fields();
        let ghost auto = text_view(auto_login_user);
        proof {
            lemma_fields_of_index(self.root.entries@, ui as int);
        }
        let mut accounts: Vec<SteamAccount> = Vec::new();
        let n = users.entries.len();
        let mut i: usize = 0;
        assert(members.take(0) =~= Seq::<VdfField>::empty());
        assert(records(accounts@) =~= Seq::<AccountRecord>::empty());
        while i < n
            invariant
                n == users.entries@.len(),
                members == users.fields(),
                auto == text_view(auto_login_user),
                members.len() == n,
                i <= n,
                records(accounts@) == account_records(members.take(i as int), auto),
                forall|k: int| 0 <= k < accounts@.len() ==> (#[trigger] accounts@[k]).time_consistent(),
            decreases n - i,
        {
            proof {
                lemma_fields_of_index(users.entries@, i as int);
            }
            let ghost before = accounts@;
            let found = account_from_entry(&users.entries[i], auto_login_user);
            let ghost prefix = members.take(i + 1);
            proof {
                assert(prefix.drop_last() =~= members.take(i as int));
                assert(prefix.last() == members[i as int]);
                assert(members[i as int] == users.entries@[i as int].field());
            }
            if let Some(account) = found {
                accounts.push(account);
                proof {
                    assert(records(accounts@) =~= records(before).push(account.record()));
                    assert(account_record(prefix.last(), auto) == Some(account.record()));
                    assert(records(accounts@) == account_records(prefix, auto));
                }
            } else {
                proof {
                    assert(account_record(prefix.last(), auto) == None::<AccountRecord>);
                    assert(records(accounts@) == account_records(prefix, auto));
                }
            }
            proof {
                let t = members.take(i + 1);
                assert(t.drop_last() =~= members.take(i as int));
                assert(t.last() == members[i as int]);
                assert(members[i as int] == users.entries@[i as int].field());
                assert(account_records(t, auto) == {
                    let rest = account_records(t.drop_last(), auto);
                    match account_record(t.last(), auto) {
                        Some(a) => rest.push(a),
                        None => rest,
                    }
                });
            }
            i = i + 1;
        }
        assert(members.take(n as int) =~= members);
        Ok(accounts)
    }

    /// Makes the selected account the most recent one in the requested mode.
    ///
    /// The target is the first account that the selector designates. Every user whose key
    /// reads as its Steam ID gets `MostRecent` 1 and, for express mode, `WantsOfflineMode` 0,
    /// for offline mode `WantsOfflineMode` 1 and `SkipOfflineModeWarning` 1; every other user
    /// object gets `MostRecent` 0. Nothing else in the document changes.
    pub fn set_active_account(
        &mut self,
        selector: &AccountSelector,
        mode: StartMode,
        auto_login_user: &str,
    ) -> (r: Result<SteamAccount, VdfError>)
        ensures
            match users_fields(old(self)@) {
                Err(e) => r matches Err(x) && x == e && final(self)@ == old(self)@,
                Ok(members) => match first_selected_member(members, *selector) {
                    None => r matches Err(x) && x == VdfError::AccountNotFound && final(self)@
                        == old(self)@,
                    Some(m) => r matches Ok(updated) && updated.record() == activated_record(
                        account_record(members[m], None)->Some_0,
                        mode,
                        auto_login_user@,
                    ) && updated.time_consistent() && final(self)@ == activate_root(
                        old(self)@,
                        account_record(members[m], None)->Some_0.steam_id64,
                        mode,
                    ),
                },
            },
    {
        let ghost old_root = self@;
        let ui = users_index(&self.root)?;
        let ghost members = users_fields(old_root)->Ok_0;
        let found = match &self.root.entries[ui].value {
            VdfValue::Object(users) => {
                proof {
                    lemma_fields_of_index(self.root.entries@, ui as int);
                }
                let n = users.entries.len();
                let mut j: usize = 0;
                let mut hit: Option<(usize, SteamAccount)> = None;
                while j < n
                    invariant_except_break
                        hit is None,
                        first_selected_member(members, *selector)
                            == first_selected_member_from(members, *selector, j as int),
                    invariant
                        n == users.entries@.len(),
                        users.fields() == members,
                        j <= n,
                    ensures
                        match hit {
                            Some((m, a)) => first_selected_member(members, *selector) == Some(
                                m as int,
                            ) && account_record(members[m as int], None) == Some(a.record())
                                && a.time_consistent(),
                            None => first_selected_member(members, *selector) == None::<int>,
                        },
                    decreases n - j,
                {
                    proof {
                        lemma_fields_of_index(users.entries@, j as int);
                    }
                    let candidate = account_from_entry(&users.entries[j], None);
                    assert(users.entries@[j as int].field() == members[j as int]);
                    assert(text_view(None) == None::<Seq<char>>);
                    if let Some(a) = candidate {
                        if a.matches(selector) {
                            assert(member_selected(members[j as int], *selector));
                            hit = Some((j, a));
                            break;
                        }
                    }
                    assert(!member_selected(members[j as int], *selector));
                    j = j + 1;
                }
                hit
            },
            VdfValue::String(_) => None,
        };
        let (m, mut target) = match found {
            Some(pair) => pair,
            None => {
                return Err(VdfError::AccountNotFound);
            },
        };

        let id = target.steam_id64;
        let mut root_entries: Vec<VdfEntry> = Vec::new();
        std::mem::swap(&mut root_entries, &mut self.root.entries);
        let ghost root_before = root_entries@;
        let users_entry = root_entries.remove(ui);
        let VdfEntry { key: users_key, value: users_value } = users_entry;
        let users = match users_value {
            VdfValue::Object(users) => users,
            VdfValue::String(_) => {
                proof {
                    assert(false);
                }
                return Err(VdfError::UsersNotObject);
            },
        };
        proof {
            lemma_fields_of_index(root_before, ui as int);
        }
        let VdfObject { entries: mut old_members } = users;
        let ghost all_members = old_members@;
        assert(fields_of(all_members) == members);
        let mut new_members: Vec<VdfEntry> = Vec::new();
        let count = old_members.len();
        let mut j: usize = 0;
        assert(fields_of(new_members@) =~= activate_members(members, id, mode).take(0));
        while j < count
            invariant
                count == all_members.len(),
                j <= count,
                old_members@ == all_members.skip(j as int),
                fields_of(all_members) == members,
                fields_of(new_members@) == activate_members(members, id, mode).take(j as int),
            decreases count - j,
        {
            proof {
                lemma_fields_of_index(all_members, j as int);
            }
            let member = old_members.remove(0);
            assert(member == all_members[j as int]);
            let VdfEntry { key, value } = member;
            let rebuilt = match value {
                VdfValue::Object(object) => {
                    let mut object = object;
                    let is_target = match parse_u64(key.as_str()) {
                        Some(k) => k == id,
                        None => false,
                    };
                    activate_object(&mut object, is_target, mode);
                    VdfEntry { key, value: VdfValue::Object(object) }
                },
                VdfValue::String(text) => VdfEntry { key, value: VdfValue::String(text) },
            };
            let ghost before = new_members@;
            new_members.push(rebuilt);
            proof {
                assert(rebuilt.field() == activate_member(members[j as int], is_target_member(members[j as int], id), mode));
                assert(fields_of(new_members@) =~= fields_of(before).push(rebuilt.field()));
                assert(old_members@ =~= all_members.skip(j + 1));
                assert(fields_of(new_members@) =~= activate_members(members, id, mode).take(
                    j + 1,
                ));
            }
            j = j + 1;
        }
        assert(activate_members(members, id, mode).take(count as int) =~= activate_members(
            members,
            id,
            mode,
        ));
        let rebuilt_users = VdfEntry {
            key: users_key,
            value: VdfValue::Object(VdfObject { entries: new_members }),
        };
        root_entries.insert(ui, rebuilt_users);
        std::mem::swap(&mut root_entries, &mut self.root.entries);
        proof {
            assert(fields_of(self.root.entries@) =~= activate_root(old_root, id, mode));
        }
        target.most_recent = true;
        target.wants_offline_mode = mode == StartMode::Offline;
        target.is_auto_login_user = same_text(target.account_name.as_str(), auto_login_user);
        Ok(target)
    }
}

} // verus!
