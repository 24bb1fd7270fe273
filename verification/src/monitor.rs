//! Monitor selection: which of the machine's monitors, given as name and
//! is-primary pairs, a capture session should use.
use crate::error::CheatessError;
use crate::text::eq_str;
use vstd::prelude::*;

verus! {

/// Monitor descriptions as pairs of character sequence and primary flag.
pub open spec fn deep_monitors(s: Seq<(String, bool)>) -> Seq<(Seq<char>, bool)> {
    s.map_values(|e: (String, bool)| (e.0@, e.1))
}

/// The first monitor at or after `i` that matches: the one carrying the
/// requested name, or, where no name is requested, the primary one.
pub open spec fn spec_pick_monitor(
    name: Option<Seq<char>>,
    monitors: Seq<(Seq<char>, bool)>,
    i: int,
) -> Option<int>
    decreases monitors.len() - i when 0 <= i <= monitors.len()
{
    if i >= monitors.len() {
        None
    } else {
        let hit = match name {
            Some(n) => monitors[i].0 == n,
            None => monitors[i].1,
        };
        if hit {
            Some(i)
        } else {
            spec_pick_monitor(name, monitors, i + 1)
        }
    }
}

fn pick_monitor_from(name: &Option<String>, monitors: &Vec<(String, bool)>, i: usize) -> (r:
    Option<usize>)
    requires
        i <= monitors@.len(),
    ensures
        ({
            let n = match name {
                Some(n) => Some(n@),
                None => None,
            };
            match r {
                Some(p) => spec_pick_monitor(n, deep_monitors(monitors@), i as int) == Some(
                    p as int,
                ) && p < monitors@.len(),
                None => spec_pick_monitor(n, deep_monitors(monitors@), i as int) is None,
            }
        }),
    decreases monitors@.len() - i,
{
    if i >= monitors.len() {
        None
    } else {
        let hit = match name {
            Some(n) => eq_str(monitors[i].0.as_str(), n.as_str()),
            None => monitors[i].1,
        };
        if hit {
            Some(i)
        } else {
            pick_monitor_from(name, monitors, i + 1)
        }
    }
}

/// Picks the monitor to capture from a list of name and is-primary pairs:
/// the first one carrying the requested name, or the first primary one when
/// no name is requested; an empty outcome is a fatal startup error.
pub fn select_monitor_from_iterable(name: &Option<String>, monitors: &Vec<(String, bool)>) -> (r:
    Result<usize, CheatessError>)
    ensures
        ({
            let n = match name {
                Some(n) => Some(n@),
                None => None,
            };
            match r {
                Ok(p) => spec_pick_monitor(n, deep_monitors(monitors@), 0) == Some(p as int) && p
                    < monitors@.len(),
                Err(e) => e == CheatessError::MonitorNotFound && spec_pick_monitor(
                    n,
                    deep_monitors(monitors@),
                    0,
                ) is None,
            }
        }),
{
    match pick_monitor_from(name, monitors, 0) {
        Some(p) => Ok(p),
        None => Err(CheatessError::MonitorNotFound),
    }
}

} // verus!
