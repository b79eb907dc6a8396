//! The names of transactions: the moment at which one starts, and the process that runs it.

use vstd::prelude::*;
use crate::path_laws::plain_name;
use crate::text::{decimal, decimal_text, digit};
use crate::transaction::optional_text;

verus! {

/// The format of the moment in the name of a transaction: the date, the time and the nanoseconds.
pub const STAMP_FORMAT: &'static str = "%Y%m%d-%H%M%S-%f";

/// How `chrono` writes a moment of UTC in a format, given the seconds since the Unix epoch and the
/// nanoseconds in them; nothing where it knows no such moment.
pub uninterp spec fn utc_stamp(secs: i64, nanos: u32, format: Seq<char>) -> Option<Seq<char>>;

/// Whether a text is made of digits and signs only, with at least as many characters as a year of
/// four digits leads to.
pub open spec fn stamp_like(text: Seq<char>) -> bool {
    &&& text.len() >= 25
    &&& forall|i: int|
        0 <= i < text.len() ==> '0' <= #[trigger] text[i] <= '9' || text[i] == '-' || text[i] == '+'
}

/// What the system clock shows, by `chrono::DateTime::<chrono::Utc>::from` on `std::time::SystemTime`, as
/// the seconds since the Unix epoch and the nanoseconds in them. A clock before the epoch gives seconds
/// below zero. Nothing is said of what the clock shows but that `chrono` knows the moment: its years reach
/// further, by some 260000 in either direction, than system clocks do.
#[verifier::external_body]
fn utc_now() -> (res: (i64, u32))
    ensures
        utc_stamp(res.0, res.1, STAMP_FORMAT@) is Some,
{
    let now = chrono::DateTime::<chrono::Utc>::from(std::time::SystemTime::now());
    (now.timestamp(), now.timestamp_subsec_nanos())
}

/// `chrono::DateTime::format` with [`STAMP_FORMAT`], on the moment that
/// `chrono::DateTime::from_timestamp` makes of these seconds and nanoseconds. The result depends on them
/// and on the format alone. It holds the year in four digits or more, with a sign where it has more than
/// four or lies before the year zero; the month, the day, the hour, the minute and the second in two digits
/// each; the nanoseconds in nine; and the two hyphens of the format.
#[verifier::external_body]
fn format_stamp(secs: i64, nanos: u32, format: &str) -> (res: Option<String>)
    requires
        format@ == STAMP_FORMAT@,
    ensures
        optional_text(res) == utc_stamp(secs, nanos, format@),
        res matches Some(text) ==> stamp_like(text@),
{
    let moment = chrono::DateTime::from_timestamp(secs, nanos)?;
    Some(moment.format(format).to_string())
}

/// Whether the system clock can show such a moment when it is read.
pub closed spec fn clock_shows(secs: i64, nanos: u32) -> bool {
    call_ensures(utc_now, (), (secs, nanos))
}

/// The name of a transaction that starts at a moment, in a process.
pub open spec fn id_of(stamp: Seq<char>, process: u32) -> Seq<char> {
    stamp + "-"@ + decimal(process as nat)
}

/// The name of a transaction that starts at a moment, in a process.
pub fn transaction_id(stamp: &str, process: u32) -> (res: String)
    ensures
        res@ == id_of(stamp@, process),
{
    let mut res = stamp.to_owned();
    res.append("-");
    res.append(decimal_text(process as u64).as_str());
    res
}

/// The name of a transaction that starts so many seconds and nanoseconds after the Unix epoch, in a
/// process; none where there is no such moment.
pub fn transaction_id_at(secs: i64, nanos: u32, process: u32) -> (res: Option<String>)
    ensures
        match (res, utc_stamp(secs, nanos, STAMP_FORMAT@)) {
            (Some(id), Some(stamp)) => id@ == id_of(stamp, process) && stamp_like(stamp),
            (None, None) => true,
            _ => false,
        },
{
    match format_stamp(secs, nanos, STAMP_FORMAT) {
        Some(stamp) => Some(transaction_id(stamp.as_str(), process)),
        None => None,
    }
}

/// Whether a transaction of that name starts, in a process, at a moment that the system clock shows.
pub open spec fn named_now(id: Seq<char>, process: u32) -> bool {
    exists|secs: i64, nanos: u32|
        {
            &&& #[trigger] clock_shows(secs, nanos)
            &&& utc_stamp(secs, nanos, STAMP_FORMAT@) matches Some(stamp)
            &&& stamp_like(stamp)
            &&& id == id_of(stamp, process)
        }
}

/// The name of a transaction that starts now, in a process.
pub fn new_transaction_id(process: u32) -> (res: String)
    ensures
        named_now(res@, process),
{
    let (secs, nanos) = utc_now();
    assert(clock_shows(secs, nanos));
    match format_stamp(secs, nanos, STAMP_FORMAT) {
        Some(stamp) => transaction_id(stamp.as_str(), process),
        None => String::new(),
    }
}

proof fn lemma_decimal_is_digits(n: nat)
    ensures
        decimal(n).len() > 0,
        forall|i: int| 0 <= i < decimal(n).len() ==> '0' <= #[trigger] decimal(n)[i] <= '9',
    decreases n,
{
    assert('0' <= digit(n % 10) <= '9');
    if n >= 10 {
        lemma_decimal_is_digits(n / 10);
    }
}

/// Law: a transaction is called by the date, the time and the nanoseconds at which it starts, each behind a
/// hyphen, and by the number of its process behind another.
pub proof fn law_transaction_id_holds_moment_and_process(stamp: Seq<char>, process: u32)
    ensures
        STAMP_FORMAT@ == "%Y%m%d-%H%M%S-%f"@,
        id_of(stamp, process) == stamp + seq!['-'] + decimal(process as nat),
{
    reveal_strlit("-");
    assert("-"@ =~= seq!['-']);
}

/// Law: the name of a transaction is a plain file name, so that a transaction lies directly in the
/// directory of the transactions.
pub proof fn law_transaction_id_is_a_plain_name(stamp: Seq<char>, process: u32)
    requires
        stamp_like(stamp),
    ensures
        plain_name(id_of(stamp, process)),
{
    let id = id_of(stamp, process);
    reveal_strlit("-");
    reveal_strlit(".");
    reveal_strlit("..");
    lemma_decimal_is_digits(process as nat);
    assert("."@.len() == 1 && ".."@.len() == 2);
    assert(id.len() > 2);
    assert forall|k: int| 0 <= k < id.len() implies #[trigger] id[k] != '/' && id[k] != '\\' by {
        if k < stamp.len() {
            assert(id[k] == stamp[k]);
        } else if k == stamp.len() {
            assert(id[k] == '-');
        } else {
            assert(id[k] == decimal(process as nat)[k - stamp.len() - 1]);
        }
    }
}

} // verus!
