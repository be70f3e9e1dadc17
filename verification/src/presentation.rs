//! What the command line prints: the account table of `refresh` and the message of `start`.

use vstd::prelude::*;
use vstd::string::StrSliceExecFns;
use vstd::utf8::encode_utf8;

use crate::steam::{StartMode, SteamAccount};
use crate::text::{decimal, decimal_text, empty_text, owned, push_char, push_text};

verus! {

pub open spec fn digit_text(value: bool) -> Seq<char> {
    if value {
        "1"@
    } else {
        "0"@
    }
}

pub open spec fn dash_if_empty(value: Seq<char>) -> Seq<char> {
    if value.len() == 0 {
        "-"@
    } else {
        value
    }
}

pub open spec fn mode_text(mode: StartMode) -> Seq<char> {
    match mode {
        StartMode::Express => "express"@,
        StartMode::Offline => "offline"@,
    }
}

/// `1` for true, `0` for false.
pub fn bool_digit(value: bool) -> (r: &'static str)
    ensures
        r@ == digit_text(value),
{
    if value {
        "1"
    } else {
        "0"
    }
}

/// The value, or `-` when it is empty.
pub fn display_or_dash(value: &str) -> (r: &str)
    ensures
        r@ == dash_if_empty(value@),
{
    if value.is_empty() {
        "-"
    } else {
        value
    }
}

/// `express` or `offline`.
pub fn mode_label(value: StartMode) -> (r: &'static str)
    ensures
        r@ == mode_text(value),
{
    match value {
        StartMode::Express => "express",
        StartMode::Offline => "offline",
    }
}

// ---------------------------------------------------------------------------
// The account table
// ---------------------------------------------------------------------------

pub open spec fn table_headers() -> Seq<Seq<char>> {
    seq![
        "steam_id64"@,
        "account_name"@,
        "persona_name"@,
        "remember_password"@,
        "most_recent"@,
        "wants_offline_mode"@,
        "last_login_time"@,
        "is_auto_login_user"@,
    ]
}

/// The cells of an account's row.
pub open spec fn account_cells(a: SteamAccount) -> Seq<Seq<char>> {
    seq![
        decimal(a.steam_id64 as nat),
        dash_if_empty(a.account_name@),
        dash_if_empty(a.persona_name@),
        digit_text(a.remember_password),
        digit_text(a.most_recent),
        digit_text(a.wants_offline_mode),
        dash_if_empty(a.last_login_time@),
        digit_text(a.is_auto_login_user),
    ]
}

/// The length of a text in UTF-8 bytes, as `str::len` gives it.
pub open spec fn byte_len(s: Seq<char>) -> int {
    (encode_utf8(s).len() as usize) as int
}

/// The widest cell of column `c` among the rows, in bytes; 0 without rows.
pub open spec fn widest_cell(accounts: Seq<SteamAccount>, c: int) -> int
    decreases accounts.len(),
{
    if accounts.len() == 0 {
        0
    } else {
        let rest = widest_cell(accounts.drop_last(), c);
        let here = byte_len(account_cells(accounts.last())[c]);
        if here > rest {
            here
        } else {
            rest
        }
    }
}

/// The width of column `c`: its header or its widest cell, in bytes.
pub open spec fn column_width(accounts: Seq<SteamAccount>, c: int) -> int {
    let head = byte_len(table_headers()[c]);
    let cells = widest_cell(accounts, c);
    if head > cells {
        head
    } else {
        cells
    }
}

/// `{:<width$}`: the text followed by spaces up to `width` characters.
pub open spec fn pad_right(s: Seq<char>, width: int, fill: char) -> Seq<char> {
    if s.len() < width {
        s + Seq::new((width - s.len()) as nat, |i: int| fill)
    } else {
        s
    }
}

/// The first `k` cells of a line, each padded to its column and followed by a space.
pub open spec fn line_cells(cells: Seq<Seq<char>>, accounts: Seq<SteamAccount>, k: int) -> Seq<char>
    decreases k,
{
    if k <= 0 {
        Seq::empty()
    } else {
        line_cells(cells, accounts, k - 1) + pad_right(
            cells[k - 1],
            column_width(accounts, k - 1),
            ' ',
        ) + seq![' ']
    }
}

/// The first `k` columns of the rule under the headers.
pub open spec fn rule_cells(accounts: Seq<SteamAccount>, k: int) -> Seq<char>
    decreases k,
{
    if k <= 0 {
        Seq::empty()
    } else {
        rule_cells(accounts, k - 1) + pad_right(Seq::empty(), column_width(accounts, k - 1), '-')
            + seq![' ']
    }
}

/// The lines of the first `k` accounts.
pub open spec fn account_lines(accounts: Seq<SteamAccount>, k: int) -> Seq<char>
    decreases k,
{
    if k <= 0 {
        Seq::empty()
    } else {
        account_lines(accounts, k - 1) + line_cells(account_cells(accounts[k - 1]), accounts, 8)
            + seq!['\n']
    }
}

/// The text that `refresh` prints for a list of accounts.
pub open spec fn account_table(accounts: Seq<SteamAccount>) -> Seq<char> {
    if accounts.len() == 0 {
        "No remembered Steam accounts found.\n"@
    } else {
        line_cells(table_headers(), accounts, 8) + seq!['\n'] + rule_cells(accounts, 8) + seq![
            '\n',
        ] + account_lines(accounts, accounts.len() as int)
    }
}

/// Each cell of an account's row sits under the header that names its field: the Steam ID
/// in decimal under `steam_id64`; the account name, persona name and login time, or `-`
/// when empty, under `account_name`, `persona_name` and `last_login_time`; `1` or `0` for
/// the flags under `remember_password`, `most_recent`, `wants_offline_mode` and
/// `is_auto_login_user`.
pub proof fn lemma_cells_under_their_headers(a: SteamAccount, c: int)
    requires
        0 <= c < 8,
    ensures
        table_headers()[c] == "steam_id64"@ ==> account_cells(a)[c] == decimal(a.steam_id64 as nat),
        table_headers()[c] == "account_name"@ ==> account_cells(a)[c] == if a.account_name@.len()
            == 0 {
            "-"@
        } else {
            a.account_name@
        },
        table_headers()[c] == "persona_name"@ ==> account_cells(a)[c] == if a.persona_name@.len()
            == 0 {
            "-"@
        } else {
            a.persona_name@
        },
        table_headers()[c] == "last_login_time"@ ==> account_cells(a)[c] == if a.last_login_time@.len()
            == 0 {
            "-"@
        } else {
            a.last_login_time@
        },
        table_headers()[c] == "remember_password"@ ==> account_cells(a)[c] == if a.remember_password {
            "1"@
        } else {
            "0"@
        },
        table_headers()[c] == "most_recent"@ ==> account_cells(a)[c] == if a.most_recent {
            "1"@
        } else {
            "0"@
        },
        table_headers()[c] == "wants_offline_mode"@ ==> account_cells(a)[c] == if a.wants_offline_mode {
            "1"@
        } else {
            "0"@
        },
        table_headers()[c] == "is_auto_login_user"@ ==> account_cells(a)[c] == if a.is_auto_login_user {
            "1"@
        } else {
            "0"@
        },
{
    reveal_strlit("steam_id64");
    reveal_strlit("account_name");
    reveal_strlit("persona_name");
    reveal_strlit("remember_password");
    reveal_strlit("most_recent");
    reveal_strlit("wants_offline_mode");
    reveal_strlit("last_login_time");
    reveal_strlit("is_auto_login_user");
    let h = table_headers();
    assert(h[0][0] == 's' && h[1][0] == 'a' && h[2][0] == 'p' && h[3][0] == 'r' && h[4][0] == 'm'
        && h[5][0] == 'w' && h[6][0] == 'l' && h[7][0] == 'i');
}

fn header_texts() -> (r: Vec<&'static str>)
    ensures
        r@.len() == 8,
        forall|c: int| 0 <= c < 8 ==> #[trigger] r@[c]@ == table_headers()[c],
{
    let r = vec![
        "steam_id64",
        "account_name",
        "persona_name",
        "remember_password",
        "most_recent",
        "wants_offline_mode",
        "last_login_time",
        "is_auto_login_user",
    ];
    assert(r@[0]@ == table_headers()[0]);
    r
}

fn row_texts(account: &SteamAccount) -> (r: Vec<String>)
    ensures
        r@.len() == 8,
        forall|c: int| 0 <= c < 8 ==> #[trigger] r@[c]@ == account_cells(*account)[c],
{
    let mut r: Vec<String> = Vec::new();
    r.push(decimal_text(account.steam_id64));
    r.push(owned(display_or_dash(account.account_name.as_str())));
    r.push(owned(display_or_dash(account.persona_name.as_str())));
    r.push(owned(bool_digit(account.remember_password)));
    r.push(owned(bool_digit(account.most_recent)));
    r.push(owned(bool_digit(account.wants_offline_mode)));
    r.push(owned(display_or_dash(account.last_login_time.as_str())));
    r.push(owned(bool_digit(account.is_auto_login_user)));
    r
}

fn push_padded(out: &mut String, cell: &str, width: usize, fill: char)
    ensures
        final(out)@ == old(out)@ + pad_right(cell@, width as int, fill),
{
    push_text(out, cell);
    let n = cell.unicode_len();
    let mut k: usize = n;
    while k < width
        invariant
            n == cell@.len(),
            n <= k <= width || (k == n && n >= width),
            out@ == old(out)@ + cell@ + Seq::new((k - n) as nat, |i: int| fill),
        decreases width - k,
    {
        let ghost before = out@;
        push_char(out, fill);
        k = k + 1;
        assert(out@ =~= old(out)@ + cell@ + Seq::new((k - n) as nat, |i: int| fill));
    }
    assert(out@ =~= old(out)@ + pad_right(cell@, width as int, fill));
}

/// The table of accounts that `refresh` prints: a header line, a rule, one line per
/// account; each column as wide as its widest entry in bytes, cells padded to it with
/// spaces and followed by one space.
pub fn render_account_table(accounts: &Vec<SteamAccount>) -> (r: String)
    ensures
        r@ == account_table(accounts@),
{
    if accounts.len() == 0 {
        return owned("No remembered Steam accounts found.\n");
    }
    let headers = header_texts();
    let n = accounts.len();
    let mut widths: Vec<usize> = Vec::new();
    let mut c: usize = 0;
    while c < 8
        invariant
            headers@.len() == 8,
            forall|k: int| 0 <= k < 8 ==> #[trigger] headers@[k]@ == table_headers()[k],
            n == accounts@.len(),
            c <= 8,
            widths@.len() == c,
            forall|k: int| 0 <= k < c ==> #[trigger] widths@[k] == column_width(accounts@, k),
        decreases 8 - c,
    {
        let mut widest: usize = 0;
        let mut i: usize = 0;
        while i < n
            invariant
                n == accounts@.len(),
                c < 8,
                i <= n,
                widest == widest_cell(accounts@.take(i as int), c as int),
            decreases n - i,
        {
            let cells = row_texts(&accounts[i]);
            let here = cells[c].as_str().len();
            proof {
                let t = accounts@.take(i + 1);
                assert(t.drop_last() =~= accounts@.take(i as int));
                assert(t.last() == accounts@[i as int]);
            }
            if here > widest {
                widest = here;
            }
            i = i + 1;
        }
        assert(accounts@.take(n as int) =~= accounts@);
        let head = headers[c].len();
        let width = if head > widest {
            head
        } else {
            widest
        };
        widths.push(width);
        c = c + 1;
    }
    let mut out = empty_text();
    // header line
    let mut k: usize = 0;
    while k < 8
        invariant
            headers@.len() == 8,
            forall|j: int| 0 <= j < 8 ==> #[trigger] headers@[j]@ == table_headers()[j],
            widths@.len() == 8,
            forall|j: int| 0 <= j < 8 ==> #[trigger] widths@[j] == column_width(accounts@, j),
            k <= 8,
            out@ == line_cells(table_headers(), accounts@, k as int),
        decreases 8 - k,
    {
        push_padded(&mut out, headers[k], widths[k], ' ');
        push_char(&mut out, ' ');
        k = k + 1;
    }
    push_char(&mut out, '\n');
    let ghost head_part = out@;
    let mut rule = empty_text();
    k = 0;
    while k < 8
        invariant
            widths@.len() == 8,
            forall|j: int| 0 <= j < 8 ==> #[trigger] widths@[j] == column_width(accounts@, j),
            k <= 8,
            rule@ == rule_cells(accounts@, k as int),
        decreases 8 - k,
    {
        push_padded(&mut rule, "", widths[k], '-');
        push_char(&mut rule, ' ');
        proof {
            reveal_strlit("");
        }
        k = k + 1;
    }
    push_text(&mut out, rule.as_str());
    push_char(&mut out, '\n');
    let ghost top = out@;
    let mut body = empty_text();
    let mut i: usize = 0;
    while i < n
        invariant
            n == accounts@.len(),
            widths@.len() == 8,
            forall|j: int| 0 <= j < 8 ==> #[trigger] widths@[j] == column_width(accounts@, j),
            i <= n,
            body@ == account_lines(accounts@, i as int),
        decreases n - i,
    {
        let cells = row_texts(&accounts[i]);
        let mut line = empty_text();
        let mut j: usize = 0;
        while j < 8
            invariant
                cells@.len() == 8,
                forall|q: int| 0 <= q < 8 ==> #[trigger] cells@[q]@ == account_cells(accounts@[i as int])[q],
                widths@.len() == 8,
                forall|q: int| 0 <= q < 8 ==> #[trigger] widths@[q] == column_width(accounts@, q),
                j <= 8,
                i < n,
                n == accounts@.len(),
                line@ == line_cells(account_cells(accounts@[i as int]), accounts@, j as int),
            decreases 8 - j,
        {
            push_padded(&mut line, cells[j].as_str(), widths[j], ' ');
            push_char(&mut line, ' ');
            j = j + 1;
        }
        push_text(&mut body, line.as_str());
        push_char(&mut body, '\n');
        i = i + 1;
    }
    push_text(&mut out, body.as_str());
    assert(out@ =~= account_table(accounts@));
    out
}

/// The message that `start` prints: `Steam switched to <name> (<id>) in <mode> mode.`
pub fn switch_summary(updated: &SteamAccount, mode: StartMode) -> (r: String)
    ensures
        r@ == "Steam switched to "@ + dash_if_empty(updated.account_name@) + " ("@ + decimal(
            updated.steam_id64 as nat,
        ) + ") in "@ + mode_text(mode) + " mode."@,
{
    let mut out = owned("Steam switched to ");
    push_text(&mut out, display_or_dash(updated.account_name.as_str()));
    push_text(&mut out, " (");
    let id = decimal_text(updated.steam_id64);
    push_text(&mut out, id.as_str());
    push_text(&mut out, ") in ");
    push_text(&mut out, mode_label(mode));
    push_text(&mut out, " mode.");
    out
}

} // verus!
