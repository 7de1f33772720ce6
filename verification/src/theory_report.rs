use vstd::prelude::*;

verus! {

/// Outcome of one checked quantity in a validation report.
#[derive(Clone, Copy, Debug, PartialEq, Eq, Structural)]
pub enum Status {
    Pass,
    Fail,
    Info,
}

/// The token a report prints for a status.
pub open spec fn status_label(s: Status) -> Seq<char> {
    match s {
        Status::Pass => "PASS"@,
        Status::Fail => "FAIL"@,
        Status::Info => "INFO"@,
    }
}

impl Status {
    /// The token a report prints for the status.
    pub fn label(&self) -> (r: &'static str)
        ensures
            r@ == status_label(*self),
    {
        match self {
            Status::Pass => "PASS",
            Status::Fail => "FAIL",
            Status::Info => "INFO",
        }
    }
}

/// Number of entries equal to `s`.
pub open spec fn count_status(xs: Seq<Status>, s: Status) -> nat
    decreases xs.len(),
{
    if xs.len() == 0 {
        0
    } else {
        count_status(xs.drop_last(), s) + if xs.last() == s {
            1nat
        } else {
            0nat
        }
    }
}

/// Number of entries that are checks (not info-only).
pub open spec fn count_checked(xs: Seq<Status>) -> nat
    decreases xs.len(),
{
    if xs.len() == 0 {
        0
    } else {
        count_checked(xs.drop_last()) + if xs.last() != Status::Info {
            1nat
        } else {
            0nat
        }
    }
}

proof fn lemma_counts_bounded(xs: Seq<Status>)
    ensures
        count_checked(xs) <= xs.len(),
        count_status(xs, Status::Pass) <= xs.len(),
        count_status(xs, Status::Fail) <= xs.len(),
        count_checked(xs) == count_status(xs, Status::Pass) + count_status(xs, Status::Fail),
    decreases xs.len(),
{
    if xs.len() > 0 {
        lemma_counts_bounded(xs.drop_last());
    }
}

/// Report totals: checked rows (all but info), passed rows, failed rows.
pub fn summary(statuses: &[Status]) -> (r: (usize, usize, usize))
    ensures
        r.0 == count_checked(statuses@),
        r.1 == count_status(statuses@, Status::Pass),
        r.2 == count_status(statuses@, Status::Fail),
{
    let mut total: usize = 0;
    let mut pass: usize = 0;
    let mut fail: usize = 0;
    let mut i: usize = 0;
    proof {
        assert(statuses@.take(0) =~= Seq::<Status>::empty());
    }
    while i < statuses.len()
        invariant
            i <= statuses@.len(),
            total == count_checked(statuses@.take(i as int)),
            pass == count_status(statuses@.take(i as int), Status::Pass),
            fail == count_status(statuses@.take(i as int), Status::Fail),
        decreases statuses@.len() - i,
    {
        let s = statuses[i];
        proof {
            assert(statuses@.take(i + 1).drop_last() =~= statuses@.take(i as int));
            lemma_counts_bounded(statuses@.take(i + 1));
        }
        if s != Status::Info {
            total = total + 1;
        }
        if s == Status::Pass {
            pass = pass + 1;
        }
        if s == Status::Fail {
            fail = fail + 1;
        }
        i = i + 1;
    }
    proof {
        assert(statuses@.take(statuses@.len() as int) =~= statuses@);
    }
    (total, pass, fail)
}

/// Every checked row has passed or failed: the report's total is the sum
/// of its passes and failures.
pub proof fn lemma_total_is_pass_plus_fail(xs: Seq<Status>)
    ensures
        count_checked(xs) == count_status(xs, Status::Pass) + count_status(xs, Status::Fail),
{
    lemma_counts_bounded(xs);
}

/// Decimal digit character of `d` (below ten).
pub open spec fn digit_char(d: nat) -> char {
    (('0' as int) + d) as char
}

/// Decimal text of a natural number, without leading zeros.
pub open spec fn decimal(n: nat) -> Seq<char>
    decreases n,
{
    if n < 10 {
        seq![digit_char(n)]
    } else {
        decimal(n / 10).push(digit_char(n % 10))
    }
}

fn digit_str(d: u64) -> (r: &'static str)
    requires
        d < 10,
    ensures
        r@ == seq![digit_char(d as nat)],
{
    proof {
        reveal_strlit("0");
        reveal_strlit("1");
        reveal_strlit("2");
        reveal_strlit("3");
        reveal_strlit("4");
        reveal_strlit("5");
        reveal_strlit("6");
        reveal_strlit("7");
        reveal_strlit("8");
        reveal_strlit("9");
    }
    let r = if d == 0 {
        "0"
    } else if d == 1 {
        "1"
    } else if d == 2 {
        "2"
    } else if d == 3 {
        "3"
    } else if d == 4 {
        "4"
    } else if d == 5 {
        "5"
    } else if d == 6 {
        "6"
    } else if d == 7 {
        "7"
    } else if d == 8 {
        "8"
    } else {
        "9"
    };
    assert(r@ =~= seq![digit_char(d as nat)]);
    r
}

/// Appends the decimal text of `n`.
pub fn push_decimal(s: &mut String, n: u64)
    ensures
        final(s)@ == old(s)@ + decimal(n as nat),
    decreases n,
{
    if n >= 10 {
        push_decimal(s, n / 10);
    }
    s.append(digit_str(n % 10));
    proof {
        if n >= 10 {
            assert(old(s)@ + decimal((n / 10) as nat) + seq![digit_char((n % 10) as nat)] =~= old(
                s,
            )@ + decimal(n as nat));
        } else {
            assert(n % 10 == n);
        }
    }
}

/// Text of a report time stamp for `secs` seconds since the Unix epoch.
pub open spec fn stamp_text(secs: nat) -> Seq<char> {
    "unix="@ + decimal(secs)
}

/// Report time stamp for `secs` seconds since the Unix epoch.
pub fn unix_stamp(secs: u64) -> (r: String)
    ensures
        r@ == stamp_text(secs as nat),
{
    let mut s = String::from_str("unix=");
    push_decimal(&mut s, secs);
    s
}

#[verifier::external_type_specification]
#[verifier::external_body]
pub struct ExSystemTime(std::time::SystemTime);

#[verifier::external_type_specification]
#[verifier::external_body]
pub struct ExSystemTimeError(std::time::SystemTimeError);

/// Calls `SystemTime::now`. What the clock reads is left unsaid.
#[verifier::external_body]
fn clock_now() -> (r: std::time::SystemTime) {
    std::time::SystemTime::now()
}

/// Calls `SystemTime::duration_since` with the Unix epoch: the time elapsed
/// since the epoch, or an error when `t` lies before it. Which holds is left
/// unsaid: it depends on the clock reading.
#[verifier::external_body]
fn since_unix_epoch(t: &std::time::SystemTime) -> (r: Result<
    core::time::Duration,
    std::time::SystemTimeError,
>) {
    t.duration_since(std::time::UNIX_EPOCH)
}

/// Calls `Duration::as_secs`: the whole seconds of `d`.
#[verifier::external_body]
fn whole_seconds(d: &core::time::Duration) -> (r: u64) {
    d.as_secs()
}

/// Time stamp of the current time; `None` when the clock reads before the
/// Unix epoch.
pub fn chrono_now() -> (r: Option<String>)
    ensures
        r matches Some(t) ==> exists|secs: nat| t@ == stamp_text(secs),
{
    let now = clock_now();
    match since_unix_epoch(&now) {
        Ok(d) => Some(unix_stamp(whole_seconds(&d))),
        Err(_) => None,
    }
}

} // verus!
