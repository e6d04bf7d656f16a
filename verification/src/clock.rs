use vstd::prelude::*;

verus! {

/// The number of seconds since the start of 1970, from the system clock:
/// `Utc::now().timestamp()` of chrono. The clock is read as a span of time
/// since that start, so what comes back is not negative; chrono stops the
/// program where the clock is set to a time before it.
#[verifier::external_body]
pub(crate) fn timestamp_sec() -> (now: i64)
    ensures
        now >= 0,
{
    chrono::Utc::now().timestamp()
}

/// The day of the local time zone, by the system clock, as year, month and
/// day with hyphens between them: `Local::now()` of chrono, formatted with
/// `%Y-%m-%d`. What comes back depends on the clock and on the time zone of
/// the machine, so nothing is said of it.
#[verifier::external_body]
pub(crate) fn local_date() -> String {
    chrono::Local::now().format("%Y-%m-%d").to_string()
}

/// The number of processors that the program can use: `num_cpus::get`,
/// which returns at least one.
#[verifier::external_body]
pub(crate) fn get_cpu_count() -> (count: usize)
    ensures
        count >= 1,
{
    num_cpus::get()
}

} // verus!
