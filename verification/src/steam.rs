//! The account model: remembered accounts, how one is selected, the start modes and the
//! display of login times.

use chrono::TimeZone;
use vstd::prelude::*;

use crate::text::{
    digit_char, empty_text, lemma_text_less_irreflexive, lemma_text_less_total, lemma_text_less_transitive,
    text_before, text_less,
};

verus! {

/// How Steam should start the selected account.
#[derive(Clone, Copy, Debug, PartialEq, Eq, Structural)]
pub enum StartMode {
    /// Online, with the remembered credentials.
    Express,
    /// In offline mode.
    Offline,
}

/// Which remembered account to switch to.
#[derive(Clone, Debug, PartialEq, Eq)]
pub enum AccountSelector {
    /// By Steam account name (exact, case-sensitive).
    AccountName(String),
    /// By 64-bit Steam ID.
    SteamId64(u64),
}

/// One remembered account as listed by `refresh`.
#[derive(Clone, Debug, PartialEq, Eq)]
pub struct SteamAccount {
    pub steam_id64: u64,
    pub account_name: String,
    pub persona_name: String,
    pub remember_password: bool,
    pub most_recent: bool,
    pub wants_offline_mode: bool,
    pub last_login_timestamp: i64,
    pub last_login_time: String,
    pub is_auto_login_user: bool,
}

/// The model of an account: every field but the local-time rendering of its timestamp,
/// which depends on the machine's time zone.
pub struct AccountRecord {
    pub steam_id64: u64,
    pub account_name: Seq<char>,
    pub persona_name: Seq<char>,
    pub remember_password: bool,
    pub most_recent: bool,
    pub wants_offline_mode: bool,
    pub last_login_timestamp: i64,
    pub is_auto_login_user: bool,
}

/// Whether the selector designates the account.
pub open spec fn selects(selector: AccountSelector, account: AccountRecord) -> bool {
    match selector {
        AccountSelector::AccountName(name) => account.account_name == name@,
        AccountSelector::SteamId64(id) => account.steam_id64 == id,
    }
}

impl SteamAccount {
    pub open spec fn record(&self) -> AccountRecord {
        AccountRecord {
            steam_id64: self.steam_id64,
            account_name: self.account_name@,
            persona_name: self.persona_name@,
            remember_password: self.remember_password,
            most_recent: self.most_recent,
            wants_offline_mode: self.wants_offline_mode,
            last_login_timestamp: self.last_login_timestamp,
            is_auto_login_user: self.is_auto_login_user,
        }
    }

    /// The display of the login time agrees with the timestamp: empty when the timestamp is
    /// not positive; when it lies in the four-digit years, `YYYY-MM-DD HH:MM:SS` showing the
    /// timestamp in some time zone.
    pub open spec fn time_consistent(&self) -> bool {
        &&& self.last_login_timestamp <= 0 ==> self.last_login_time@.len() == 0
        &&& 1 <= self.last_login_timestamp <= last_four_digit_timestamp() ==> is_login_time_text(
            self.last_login_time@,
        )
        &&& 1 <= self.last_login_timestamp <= last_four_digit_timestamp() ==> shows_timestamp(
            self.last_login_time@,
            self.last_login_timestamp as int,
        )
    }

    /// Whether `selector` designates this account.
    pub fn matches(&self, selector: &AccountSelector) -> (r: bool)
        ensures
            r == selects(*selector, self.record()),
    {
        match selector {
            AccountSelector::AccountName(value) => self.account_name == *value,
            AccountSelector::SteamId64(value) => self.steam_id64 == *value,
        }
    }
}

/// The records of a list of accounts, in order.
pub open spec fn records(accounts: Seq<SteamAccount>) -> Seq<AccountRecord> {
    Seq::new(accounts.len(), |i: int| accounts[i].record())
}

/// The format in which login times are shown.
pub open spec fn login_time_pattern() -> Seq<char> {
    "%Y-%m-%d %H:%M:%S"@
}

/// The latest timestamp whose local date, under any offset chrono allows (less than a day
/// either way), still falls in a four-digit year: 9999-12-30 23:59:59 UTC.
pub open spec fn last_four_digit_timestamp() -> int {
    253_402_214_399
}

/// The shape of a login time as `%Y-%m-%d %H:%M:%S` writes a four-digit year:
/// `YYYY-MM-DD HH:MM:SS`, every other character an ASCII digit.
pub open spec fn is_login_time_text(s: Seq<char>) -> bool {
    &&& s.len() == 19
    &&& forall|i: int|
        0 <= i < 19 ==> if i == 4 || i == 7 {
            #[trigger] s[i] == '-'
        } else if i == 10 {
            s[i] == ' '
        } else if i == 13 || i == 16 {
            s[i] == ':'
        } else {
            '0' <= s[i] <= '9'
        }
}

/// Whether `y` is a leap year of the proleptic Gregorian calendar.
pub open spec fn is_leap_year(y: int) -> bool {
    y % 4 == 0 && (y % 100 != 0 || y % 400 == 0)
}

pub open spec fn days_in_month(y: int, m: int) -> int {
    if m == 2 {
        if is_leap_year(y) {
            29
        } else {
            28
        }
    } else if m == 4 || m == 6 || m == 9 || m == 11 {
        30
    } else {
        31
    }
}

/// Days in the months of year `y` before month `m`.
pub open spec fn days_before_month(y: int, m: int) -> int
    decreases m,
{
    if m <= 1 {
        0
    } else {
        days_before_month(y, m - 1) + days_in_month(y, m - 1)
    }
}

/// Days from 0001-01-01 to the first of January of year `y` (for `y >= 1`).
pub open spec fn days_before_year(y: int) -> int {
    365 * (y - 1) + (y - 1) / 4 - (y - 1) / 100 + (y - 1) / 400
}

/// A date and time of day of the proleptic Gregorian calendar.
pub struct CivilTime {
    pub year: int,
    pub month: int,
    pub day: int,
    pub hour: int,
    pub minute: int,
    pub second: int,
}

pub open spec fn valid_civil_time(t: CivilTime) -> bool {
    &&& 1 <= t.year <= 9999
    &&& 1 <= t.month <= 12
    &&& 1 <= t.day <= days_in_month(t.year, t.month)
    &&& 0 <= t.hour < 24
    &&& 0 <= t.minute < 60
    &&& 0 <= t.second < 60
}

/// Seconds from 1970-01-01 00:00:00 to the date and time (719162 days separate
/// 0001-01-01 from 1970-01-01).
pub open spec fn civil_seconds(t: CivilTime) -> int {
    (days_before_year(t.year) + days_before_month(t.year, t.month) + t.day - 1 - 719162) * 86400
        + t.hour * 3600 + t.minute * 60 + t.second
}

pub open spec fn two_digits(n: int) -> Seq<char> {
    seq![digit_char(n / 10), digit_char(n % 10)]
}

pub open spec fn four_digits(n: int) -> Seq<char> {
    seq![digit_char(n / 1000), digit_char((n / 100) % 10), digit_char((n / 10) % 10), digit_char(n % 10)]
}

/// `%Y-%m-%d %H:%M:%S` of a date and time with a four-digit year.
pub open spec fn civil_text(t: CivilTime) -> Seq<char> {
    four_digits(t.year) + seq!['-'] + two_digits(t.month) + seq!['-'] + two_digits(t.day) + seq![' ']
        + two_digits(t.hour) + seq![':'] + two_digits(t.minute) + seq![':'] + two_digits(t.second)
}

/// The text shows the timestamp in some time zone: it is a date and time lying less than a
/// day either way from `timestamp` seconds after 1970-01-01 00:00:00, the offset being the
/// zone's.
pub open spec fn shows_timestamp(text: Seq<char>, timestamp: int) -> bool {
    exists|t: CivilTime|
        #[trigger] valid_civil_time(t) && -86400 < civil_seconds(t) - timestamp < 86400 && text
            == civil_text(t)
}

/// `chrono::Local.timestamp_opt(..).single()` followed by `DateTime::format`: the local
/// date and time of a Unix timestamp in the given pattern, or none when the timestamp is out
/// of chrono's range. chrono documents that `timestamp_opt` gives a single time for every
/// timestamp in its range; that time is the UTC time of the timestamp moved by the local
/// offset, a `FixedOffset` of less than a day either way, in the proleptic Gregorian
/// calendar; `%Y` is the year zero-padded to four digits (with a sign only outside
/// 0..=9999), `%m`, `%d`, `%H`, `%M`, `%S` two zero-padded digits each, and no leap second
/// arises from a whole-second timestamp. So for a positive timestamp up to
/// `last_four_digit_timestamp()` the text is the date and time of the timestamp plus some
/// offset under a day; which offset depends on the machine's time zone and is not claimed.
#[verifier::external_body]
fn local_time_text(timestamp: i64, pattern: &str) -> (r: Option<String>)
    requires
        pattern@ == login_time_pattern(),
    ensures
        r matches Some(s) ==> (1 <= timestamp <= last_four_digit_timestamp() ==> is_login_time_text(s@)),
        r matches Some(s) ==> (1 <= timestamp <= last_four_digit_timestamp() ==> shows_timestamp(s@, timestamp as int)),
        r is None ==> !(1 <= timestamp <= last_four_digit_timestamp()),
{
    let moment = chrono::Local.timestamp_opt(timestamp, 0).single()?;
    Some(moment.format(pattern).to_string())
}

/// The local date and time of a login timestamp, `YYYY-MM-DD HH:MM:SS`; empty when the
/// timestamp is not positive or cannot be shown.
pub fn format_timestamp(timestamp: i64) -> (r: String)
    ensures
        timestamp <= 0 ==> r@.len() == 0,
        1 <= timestamp <= last_four_digit_timestamp() ==> is_login_time_text(r@),
        1 <= timestamp <= last_four_digit_timestamp() ==> shows_timestamp(r@, timestamp as int),
{
    if timestamp <= 0 {
        return empty_text();
    }
    let pattern = "%Y-%m-%d %H:%M:%S";
    match local_time_text(timestamp, pattern) {
        Some(text) => text,
        None => empty_text(),
    }
}

// ---------------------------------------------------------------------------
// Listing order
// ---------------------------------------------------------------------------

/// The listing order: most recent first, then remembered passwords first, then the latest
/// login first, then by account name.
pub open spec fn listed_before(a: AccountRecord, b: AccountRecord) -> bool {
    if a.most_recent != b.most_recent {
        a.most_recent
    } else if a.remember_password != b.remember_password {
        a.remember_password
    } else if a.last_login_timestamp != b.last_login_timestamp {
        a.last_login_timestamp > b.last_login_timestamp
    } else {
        text_less(a.account_name, b.account_name)
    }
}

/// Two accounts that the listing order does not tell apart.
pub open spec fn same_rank(a: AccountRecord, b: AccountRecord) -> bool {
    &&& a.most_recent == b.most_recent
    &&& a.remember_password == b.remember_password
    &&& a.last_login_timestamp == b.last_login_timestamp
    &&& a.account_name == b.account_name
}

/// The listing order is a strict weak order whose ties are exactly the accounts of the same
/// rank.
pub proof fn lemma_listed_before_order(a: AccountRecord, b: AccountRecord, c: AccountRecord)
    ensures
        !listed_before(a, a),
        listed_before(a, b) ==> !listed_before(b, a),
        listed_before(a, b) && listed_before(b, c) ==> listed_before(a, c),
        !listed_before(a, b) && !listed_before(b, a) <==> same_rank(a, b),
{
    lemma_text_less_irreflexive(a.account_name);
    lemma_text_less_total(a.account_name, b.account_name);
    if listed_before(a, b) && listed_before(b, c) && a.most_recent == b.most_recent
        && b.most_recent == c.most_recent && a.remember_password == b.remember_password
        && b.remember_password == c.remember_password && a.last_login_timestamp
        == b.last_login_timestamp && b.last_login_timestamp == c.last_login_timestamp {
        lemma_text_less_transitive(a.account_name, b.account_name, c.account_name);
    }
}

/// How two accounts compare in the listing order.
#[derive(Clone, Copy, Debug, PartialEq, Eq, Structural)]
pub enum Precedence {
    Before,
    Tied,
    After,
}

/// Compares two accounts in the listing order.
pub fn compare_accounts(left: &SteamAccount, right: &SteamAccount) -> (r: Precedence)
    ensures
        r == Precedence::Before <==> listed_before(left.record(), right.record()),
        r == Precedence::After <==> listed_before(right.record(), left.record()),
        r == Precedence::Tied <==> same_rank(left.record(), right.record()),
{
    proof {
        lemma_listed_before_order(left.record(), right.record(), right.record());
    }
    if left.most_recent != right.most_recent {
        if left.most_recent {
            Precedence::Before
        } else {
            Precedence::After
        }
    } else if left.remember_password != right.remember_password {
        if left.remember_password {
            Precedence::Before
        } else {
            Precedence::After
        }
    } else if left.last_login_timestamp != right.last_login_timestamp {
        if left.last_login_timestamp > right.last_login_timestamp {
            Precedence::Before
        } else {
            Precedence::After
        }
    } else if text_before(left.account_name.as_str(), right.account_name.as_str()) {
        Precedence::Before
    } else if text_before(right.account_name.as_str(), left.account_name.as_str()) {
        Precedence::After
    } else {
        Precedence::Tied
    }
}

/// `new` is `old` sorted in the listing order by a stable sort: `order[i]` is the position
/// in `old` of the account at position `i` of `new`; accounts of the same rank keep their
/// relative order.
pub open spec fn stable_sorted(old: Seq<SteamAccount>, new: Seq<SteamAccount>, order: Seq<int>) -> bool {
    &&& new.len() == old.len()
    &&& order.len() == new.len()
    &&& forall|i: int| 0 <= i < new.len() ==> 0 <= #[trigger] order[i] < old.len()
    &&& forall|i: int| 0 <= i < new.len() ==> #[trigger] new[i] == old[order[i]]
    &&& forall|i: int, j: int| 0 <= i < j < new.len() ==> #[trigger] order[i] != #[trigger] order[j]
    &&& forall|i: int, j: int|
        0 <= i < j < new.len() ==> !listed_before(#[trigger] new[j].record(), #[trigger] new[i].record())
    &&& forall|i: int, j: int|
        0 <= i < j < new.len() && same_rank(#[trigger] new[i].record(), #[trigger] new[j].record())
            ==> order[i] < order[j]
}

/// Accounts in the listing order: no account is listed before an earlier one.
pub open spec fn in_listing_order(accounts: Seq<SteamAccount>) -> bool {
    forall|i: int, j: int|
        0 <= i < j < accounts.len() ==> !listed_before(
            #[trigger] accounts[j].record(),
            #[trigger] accounts[i].record(),
        )
}

proof fn lemma_order_rises(old: Seq<SteamAccount>, new: Seq<SteamAccount>, order: Seq<int>, i: int, j: int)
    requires
        stable_sorted(old, new, order),
        in_listing_order(old),
        0 <= i < j < new.len(),
    ensures
        order[i] < order[j],
{
    let a = new[i].record();
    let b = new[j].record();
    lemma_listed_before_order(a, b, a);
    assert(order[i] != order[j]);
    if !same_rank(a, b) {
        assert(listed_before(a, b));
        if order[j] < order[i] {
            assert(new[i] == old[order[i]]);
            assert(new[j] == old[order[j]]);
            assert(!listed_before(old[order[i]].record(), old[order[j]].record()));
        }
    }
}

proof fn lemma_order_at_least(old: Seq<SteamAccount>, new: Seq<SteamAccount>, order: Seq<int>, i: int)
    requires
        stable_sorted(old, new, order),
        in_listing_order(old),
        0 <= i < new.len(),
    ensures
        order[i] >= i,
    decreases i,
{
    if i > 0 {
        lemma_order_at_least(old, new, order, i - 1);
        lemma_order_rises(old, new, order, i - 1, i);
    }
}

proof fn lemma_order_at_most(
    old: Seq<SteamAccount>,
    new: Seq<SteamAccount>,
    order: Seq<int>,
    i: int,
    k: int,
)
    requires
        stable_sorted(old, new, order),
        in_listing_order(old),
        0 <= i <= k < new.len(),
        k == new.len() - 1 || order[k + 1] <= k + 1,
    ensures
        order[i] <= i,
    decreases k - i,
{
    if k == new.len() - 1 {
        assert(order[k] < old.len());
    } else {
        lemma_order_rises(old, new, order, k, k + 1);
    }
    assert(order[k] <= k);
    if i < k {
        lemma_order_at_most(old, new, order, i, k - 1);
    }
}

/// Sorting accounts that are already in the listing order gives them back unchanged, so
/// sorting twice gives what sorting once gives.
pub proof fn lemma_sorting_sorted_changes_nothing(
    old: Seq<SteamAccount>,
    new: Seq<SteamAccount>,
    order: Seq<int>,
)
    requires
        stable_sorted(old, new, order),
        in_listing_order(old),
    ensures
        new == old,
{
    let n = new.len();
    assert forall|i: int| 0 <= i < n implies #[trigger] order[i] == i by {
        lemma_order_at_least(old, new, order, i);
        lemma_order_at_most(old, new, order, i, n - 1);
    }
    assert forall|i: int| 0 <= i < n implies new[i] == old[i] by {
        assert(order[i] == i);
        assert(new[i] == old[order[i]]);
    }
    assert(new =~= old);
}

/// Sorts accounts in the listing order, keeping accounts of the same rank in their order.
pub fn sort_accounts(accounts: &mut Vec<SteamAccount>)
    ensures
        exists|order: Seq<int>| stable_sorted(old(accounts)@, final(accounts)@, order),
{
    let ghost unsorted = accounts@;
    let n = accounts.len();
    let ghost mut order: Seq<int> = Seq::new(n as nat, |k: int| k);
    if n == 0 {
        assert(stable_sorted(unsorted, accounts@, order));
        return;
    }
    let mut i: usize = 1;
    while i < n
        invariant
            1 <= i <= n,
            accounts@.len() == n,
            unsorted.len() == n,
            order.len() == n,
            forall|k: int| 0 <= k < n ==> 0 <= #[trigger] order[k] < n,
            forall|k: int| 0 <= k < i ==> #[trigger] order[k] < i,
            forall|k: int| i <= k < n ==> #[trigger] order[k] == k,
            forall|k: int| 0 <= k < n ==> #[trigger] accounts@[k] == unsorted[order[k]],
            forall|k: int, m: int| 0 <= k < m < n ==> #[trigger] order[k] != #[trigger] order[m],
            forall|k: int, m: int|
                0 <= k < m < i ==> !listed_before(
                    #[trigger] accounts@[m].record(),
                    #[trigger] accounts@[k].record(),
                ),
            forall|k: int, m: int|
                0 <= k < m < i && same_rank(
                    #[trigger] accounts@[k].record(),
                    #[trigger] accounts@[m].record(),
                ) ==> order[k] < order[m],
        decreases n - i,
    {
        let ghost before = accounts@;
        let x = accounts.remove(i);
        assert(x == before[i as int]);
        let mut j: usize = i;
        while j > 0 && compare_accounts(&x, &accounts[j - 1]) == Precedence::Before
            invariant
                0 <= j <= i,
                i < n,
                accounts@.len() == n - 1,
                forall|k: int| 0 <= k < i ==> #[trigger] accounts@[k] == before[k],
                forall|k: int| j <= k < i ==> listed_before(x.record(), #[trigger] before[k].record()),
            decreases j,
        {
            j = j - 1;
        }
        let ghost removed = accounts@;
        accounts.insert(j, x);
        let ghost old_order = order;
        proof {
            order = old_order.take(j as int).push(i as int) + old_order.subrange(j as int, i as int)
                + old_order.skip(i + 1);
            let now = accounts@;
            assert(order.len() == n);
            assert forall|k: int| 0 <= k < n implies #[trigger] now[k] == unsorted[order[k]] && 0
                <= order[k] < n by {
                if k < j {
                    assert(now[k] == before[k]);
                    assert(order[k] == old_order[k]);
                } else if k == j {
                    assert(now[k] == x);
                    assert(order[k] == i);
                } else if k <= i {
                    assert(now[k] == removed[k - 1]);
                    assert(removed[k - 1] == before[k - 1]);
                    assert(order[k] == old_order[k - 1]);
                } else {
                    assert(now[k] == removed[k - 1]);
                    assert(removed[k - 1] == before[k]);
                    assert(order[k] == old_order[k]);
                }
            }
            assert forall|k: int| 0 <= k < i + 1 implies #[trigger] order[k] < i + 1 by {
                if k < j {
                    assert(order[k] == old_order[k]);
                } else if k == j {
                } else {
                    assert(order[k] == old_order[k - 1]);
                }
            }
            assert forall|k: int| i + 1 <= k < n implies #[trigger] order[k] == k by {
                assert(order[k] == old_order[k]);
            }
            assert forall|k: int, m: int| 0 <= k < m < n implies #[trigger] order[k]
                != #[trigger] order[m] by {
                let ok = if k < j {
                    k
                } else if k == j {
                    i as int
                } else if k <= i {
                    k - 1
                } else {
                    k
                };
                let om = if m < j {
                    m
                } else if m == j {
                    i as int
                } else if m <= i {
                    m - 1
                } else {
                    m
                };
                assert(order[k] == old_order[ok]);
                assert(order[m] == old_order[om]);
                if ok != om {
                    if ok < om {
                        assert(old_order[ok] != old_order[om]);
                    } else {
                        assert(old_order[om] != old_order[ok]);
                    }
                }
            }
            assert forall|k: int, m: int| 0 <= k < m < i + 1 implies !listed_before(
                #[trigger] now[m].record(),
                #[trigger] now[k].record(),
            ) by {
                let bk = if k < j {
                    k
                } else if k == j {
                    i as int
                } else {
                    k - 1
                };
                let bm = if m < j {
                    m
                } else if m == j {
                    i as int
                } else {
                    m - 1
                };
                assert(now[k] == before[bk]);
                assert(now[m] == before[bm]);
                if k == j {
                    // x is listed before every account it passed
                    lemma_listed_before_order(x.record(), before[bm].record(), x.record());
                } else if m == j {
                    // x does not come before the account just in front of it, nor before any
                    // earlier one
                    if j > 0 {
                        let prev = before[j - 1].record();
                        lemma_listed_before_order(x.record(), prev, before[bk].record());
                        lemma_listed_before_order(prev, before[bk].record(), x.record());
                        lemma_listed_before_order(x.record(), before[bk].record(), prev);
                    }
                } else {
                    assert(bk < bm);
                }
            }
            assert forall|k: int, m: int|
                0 <= k < m < i + 1 && same_rank(
                    #[trigger] now[k].record(),
                    #[trigger] now[m].record(),
                ) implies order[k] < order[m] by {
                let bk = if k < j {
                    k
                } else if k == j {
                    i as int
                } else {
                    k - 1
                };
                let bm = if m < j {
                    m
                } else if m == j {
                    i as int
                } else {
                    m - 1
                };
                assert(now[k] == before[bk]);
                assert(now[m] == before[bm]);
                if k == j {
                    lemma_listed_before_order(x.record(), before[bm].record(), x.record());
                } else if m == j {
                    assert(order[m] == i);
                    assert(order[k] == old_order[bk]);
                } else {
                    assert(order[k] == old_order[bk]);
                    assert(order[m] == old_order[bm]);
                }
            }
        }
        i = i + 1;
    }
    assert(stable_sorted(unsorted, accounts@, order));
}

} // verus!
