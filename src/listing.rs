use vstd::prelude::*;
use vstd::string::*;
use crate::active_set::ListEntry;
use crate::link::{message_url, url_of};

verus! {

/// Reply to a listing that finds no reminder.
pub const NO_TIMERS_MESSAGE: &'static str = "現在設定されているタイマーはありません :melting_face:";

pub open spec fn header_of(all: bool) -> Seq<char> {
    (if all { "|設定者"@ } else { Seq::empty() }) + "|終了予定|url|"@
}

pub open spec fn separator_of(all: bool) -> Seq<char> {
    (if all { "|---"@ } else { Seq::empty() }) + "|---|---|"@
}

/// One table row: the owner when everyone's reminders are listed, the
/// fire time as `time` writes it, and the short link to the reminder.
pub open spec fn row_of(e: ListEntry, time: Seq<char>, all: bool) -> Seq<char> {
    (if all { "| :@"@ + e.user_id@ + ": "@ } else { Seq::empty() }) + "|"@ + time + "|"@ + url_of(
        e.message_uuid@,
        true,
    ) + "|"@
}

/// The first `n` rows, one per line.
pub open spec fn rows_of(entries: Seq<ListEntry>, times: Seq<String>, all: bool, n: nat) -> Seq<char>
    decreases n,
{
    if n == 0 {
        Seq::empty()
    } else if n == 1 {
        row_of(entries[0], times[0]@, all)
    } else {
        rows_of(entries, times, all, (n - 1) as nat) + "\n"@ + row_of(
            entries[n - 1],
            times[n - 1]@,
            all,
        )
    }
}

/// The reply to a listing: a table with a header, a separator and one row
/// per reminder, or a fixed message when there is none.
pub open spec fn table_of(entries: Seq<ListEntry>, times: Seq<String>, all: bool) -> Seq<char> {
    if entries.len() == 0 {
        NO_TIMERS_MESSAGE@
    } else {
        header_of(all) + "\n"@ + separator_of(all) + "\n"@ + rows_of(
            entries,
            times,
            all,
            entries.len(),
        )
    }
}

fn append_row(out: &mut String, e: &ListEntry, time: &String, all: bool)
    ensures
        final(out)@ == old(out)@ + row_of(*e, time@, all),
{
    if all {
        out.append("| :@");
        out.append(e.user_id.as_str());
        out.append(": ");
    }
    out.append("|");
    out.append(time.as_str());
    out.append("|");
    let url = message_url(e.message_uuid.as_str(), true);
    out.append(url.as_str());
    out.append("|");
    proof {
        assert(final(out)@ =~= old(out)@ + row_of(*e, time@, all));
    }
}

/// Renders the listing `entries`, `times[i]` being the fire time of
/// `entries[i]` as it is to be shown.
pub fn render_list(entries: &Vec<ListEntry>, times: &Vec<String>, all: bool) -> (r: String)
    requires
        times@.len() == entries@.len(),
    ensures
        r@ == table_of(entries@, times@, all),
{
    let n = entries.len();
    if n == 0 {
        return String::from_str(NO_TIMERS_MESSAGE);
    }
    let mut out = if all {
        String::from_str("|設定者")
    } else {
        String::new()
    };
    out.append("|終了予定|url|");
    out.append("\n");
    if all {
        out.append("|---");
    }
    out.append("|---|---|");
    out.append("\n");
    let ghost prefix = out@;
    proof {
        assert(prefix =~= header_of(all) + "\n"@ + separator_of(all) + "\n"@);
    }
    append_row(&mut out, &entries[0], &times[0], all);
    let mut i: usize = 1;
    while i < n
        invariant
            n == entries@.len(),
            times@.len() == n,
            1 <= i <= n,
            out@ == prefix + rows_of(entries@, times@, all, i as nat),
        decreases n - i,
    {
        out.append("\n");
        append_row(&mut out, &entries[i], &times[i], all);
        proof {
            assert(out@ =~= prefix + rows_of(entries@, times@, all, (i + 1) as nat));
        }
        i = i + 1;
    }
    proof {
        assert(out@ =~= table_of(entries@, times@, all));
    }
    out
}

} // verus!
