//! The text of a desktop notification for a job transition.
use vstd::prelude::*;

verus! {

broadcast use vstd::string::group_string_axioms;

/// `[cluster] job: from -> to`, followed by ` (detail)` when there is a
/// detail.
pub open spec fn transition_text(
    cluster: Seq<char>,
    job_name: Seq<char>,
    from_state: Seq<char>,
    to_state: Seq<char>,
    detail: Option<Seq<char>>,
) -> Seq<char> {
    let head = "["@ + cluster + "] "@ + job_name + ": "@ + from_state + " -> "@ + to_state;
    match detail {
        Some(d) => head + " ("@ + d + ")"@,
        None => head,
    }
}

/// The body of the notification sent for a job transition.
pub fn notification_body(
    cluster: &str,
    job_name: &str,
    from_state: &str,
    to_state: &str,
    detail: Option<&str>,
) -> (r: String)
    ensures
        r@ == transition_text(
            cluster@,
            job_name@,
            from_state@,
            to_state@,
            match detail {
                Some(d) => Some(d@),
                None => None,
            },
        ),
{
    let mut r = String::from_str("[");
    r.append(cluster);
    r.append("] ");
    r.append(job_name);
    r.append(": ");
    r.append(from_state);
    r.append(" -> ");
    r.append(to_state);
    match detail {
        Some(d) => {
            r.append(" (");
            r.append(d);
            r.append(")");
        },
        None => {},
    }
    r
}

} // verus!
