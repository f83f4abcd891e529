//! How long the log of a build is kept.
use vstd::prelude::*;
use vstd::string::*;

use crate::text;

verus! {

pub const USER_TTL_DAYS: u64 = 365;

pub const DEFAULT_TTL_DAYS: u64 = 60;

/// Signals on changes are kept for four weeks.
pub const CI_EXCEPT_CONTINUOUS_TTL_DAYS: u64 = 28;

/// How long something is kept.
#[derive(Clone, Copy, Debug, PartialEq, Eq, Structural)]
pub struct Ttl {
    pub secs: u64,
}

impl Ttl {
    pub fn from_secs(secs: u64) -> (r: Ttl)
        ensures
            r.secs == secs,
    {
        Ttl { secs }
    }

    pub fn from_days(days: u64) -> (r: Ttl)
        requires
            days * 86400 <= u64::MAX,
        ensures
            r.secs == days * 86400,
    {
        Ttl { secs: days * 86400 }
    }

    pub fn as_secs(&self) -> (r: u64)
        ensures
            r == self.secs,
    {
        self.secs
    }
}

/// The names of users that are programs.
pub open spec fn robot_names() -> Seq<Seq<char>> {
    seq![
        "twsvcscm"@,
        "svcscm"@,
        "facebook"@,
        "root"@,
        "svc-si_admin"@,
        "svc-fbsi_datamgr"@,
    ]
}

/// The names of users that are programs.
fn robots() -> (r: Vec<String>)
    ensures
        text::views(r@) == robot_names(),
{
    let mut v: Vec<String> = Vec::new();
    v.push("twsvcscm".to_owned());
    v.push("svcscm".to_owned());
    v.push("facebook".to_owned());
    v.push("root".to_owned());
    v.push("svc-si_admin".to_owned());
    v.push("svc-fbsi_datamgr".to_owned());
    assert(text::views(v@) =~= robot_names());
    v
}

/// For how many days a log is kept: long for a user, less for a run that is not continuous.
pub open spec fn ttl_days(
    robots: Seq<Seq<char>>,
    username: Option<Seq<char>>,
    schedule_type: Option<Seq<char>>,
) -> nat {
    if username matches Some(u) && !robots.contains(u) {
        USER_TTL_DAYS as nat
    } else if schedule_type matches Some(s) && s != "continuous"@ {
        CI_EXCEPT_CONTINUOUS_TTL_DAYS as nat
    } else {
        DEFAULT_TTL_DAYS as nat
    }
}

/// The characters of an optional string.
pub open spec fn opt_view(s: Option<String>) -> Option<Seq<char>> {
    match s {
        Some(s) => Some(s@),
        None => None,
    }
}

/// How long a log is kept. A test can set it.
pub fn manifold_event_log_ttl_impl(
    robots: &Vec<String>,
    username: Option<String>,
    schedule_type: Option<String>,
    test_ttl_secs: Option<u64>,
) -> (r: Ttl)
    ensures
        r.secs == (match test_ttl_secs {
            Some(secs) => secs as nat,
            None => ttl_days(text::views(robots@), opt_view(username), opt_view(schedule_type))
                * 86400,
        }),
{
    if let Some(secs) = test_ttl_secs {
        return Ttl::from_secs(secs);
    }
    if let Some(username) = &username {
        if !text::contains_str(robots, username.as_str()) {
            return Ttl::from_days(USER_TTL_DAYS);
        }
    }
    if let Some(schedule) = &schedule_type {
        if !text::str_eq(schedule.as_str(), "continuous") {
            return Ttl::from_days(CI_EXCEPT_CONTINUOUS_TTL_DAYS);
        }
    }
    Ttl::from_days(DEFAULT_TTL_DAYS)
}

/// How a run was scheduled: the first of two variables that is set. The second is not looked at
/// unless the first is not set.
pub fn schedule_type(
    first: Result<Option<String>, String>,
    second: Result<Option<String>, String>,
) -> (r: Result<Option<String>, String>)
    ensures
        r == (match first {
            Ok(None) => second,
            _ => first,
        }),
{
    match first {
        Ok(None) => second,
        _ => first,
    }
}

/// How long a log is kept, once it is known who ran the build, how it was scheduled and whether a
/// test sets it. A user that cannot be found out counts as none.
pub fn manifold_event_log_ttl(
    username: Result<Option<String>, String>,
    schedule_type: Result<Option<String>, String>,
    test_ttl_secs: Result<Option<u64>, String>,
) -> (r: Result<Ttl, String>)
    ensures
        match (schedule_type, test_ttl_secs) {
            (Err(e), _) => r == Err::<Ttl, String>(e),
            (Ok(_), Err(e)) => r == Err::<Ttl, String>(e),
            (Ok(schedule), Ok(test)) => r matches Ok(ttl) && ttl.secs == (match test {
                Some(secs) => secs as nat,
                None => ttl_days(
                    robot_names(),
                    match username {
                        Ok(u) => opt_view(u),
                        Err(_) => None,
                    },
                    opt_view(schedule),
                ) * 86400,
            }),
        },
{
    let schedule = match schedule_type {
        Ok(s) => s,
        Err(e) => {
            return Err(e);
        },
    };
    let test = match test_ttl_secs {
        Ok(t) => t,
        Err(e) => {
            return Err(e);
        },
    };
    let user = match username {
        Ok(u) => u,
        Err(_) => None,
    };
    Ok(manifold_event_log_ttl_impl(&robots(), user, schedule, test))
}

/// Who keeps a log for how long. A user that is no program keeps it longest, whatever the schedule;
/// a program keeps the log of a run that is not continuous shortest.
pub proof fn law_who_keeps_a_log(
    robots: Seq<Seq<char>>,
    username: Option<Seq<char>>,
    schedule_type: Option<Seq<char>>,
)
    ensures
        username is Some && !robots.contains(username->0) ==> ttl_days(
            robots,
            username,
            schedule_type,
        ) == 365,
        username is None || robots.contains(username->0) ==> {
            &&& ttl_days(robots, username, None) == 60
            &&& ttl_days(robots, username, Some("continuous"@)) == 60
            &&& schedule_type is Some && schedule_type->0 != "continuous"@ ==> ttl_days(
                robots,
                username,
                schedule_type,
            ) == 28
        },
{
}

} // verus!
