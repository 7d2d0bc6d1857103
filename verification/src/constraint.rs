//! Power-limit constraints of a power-capping zone. A constraint exists only
//! if its power-limit attribute is readable; its bounds are read once at
//! discovery, and a write that violates a discovered bound is a caller
//! contract violation, rejected before it reaches hardware.

use vstd::prelude::*;
use crate::text::{spec_trim, spec_parse_u64, dec_digits, trim, parse_u64, u64_to_dec};

verus! {

/// What parsing an optional attribute's text yields: absent stays absent,
/// present text is parsed.
pub open spec fn parsed(o: Option<String>) -> Option<u64> {
    match o {
        Some(s) => spec_parse_u64(s@),
        None => None,
    }
}

/// Reads a required numeric attribute. The attribute file being absent or
/// unparsable is a corrupted tree, which discovery treats as fatal; callers
/// rule it out beforehand.
pub fn required(text: &Option<String>) -> (v: u64)
    requires
        parsed(*text) is Some,
    ensures
        Some(v) == parsed(*text),
{
    match text {
        Some(s) => match parse_u64(s.as_str()) {
            Some(v) => v,
            None => unreached(),
        },
        None => unreached(),
    }
}

/// Reads an optional numeric attribute: an absent file is an absent value,
/// present text must parse.
pub fn optional(text: &Option<String>) -> (v: Option<u64>)
    requires
        text matches Some(t) ==> spec_parse_u64(t@) is Some,
    ensures
        v == parsed(*text),
{
    match text {
        Some(s) => match parse_u64(s.as_str()) {
            Some(v) => Some(v),
            None => unreached(),
        },
        None => None,
    }
}

/// The raw attribute texts of one constraint index, as read from a zone
/// directory: `None` where the attribute file could not be opened.
pub struct ConstraintSnapshot {
    pub name: Option<String>,
    pub power_limit_uw: Option<String>,
    pub time_window_us: Option<String>,
    pub min_power_uw: Option<String>,
    pub max_power_uw: Option<String>,
    pub min_time_window_us: Option<String>,
    pub max_time_window_us: Option<String>,
}

/// Whatever is present parses; the time window may be empty (the peak-power
/// constraint has no time window and reads as empty text).
pub open spec fn constraint_snap_wf(s: ConstraintSnapshot) -> bool {
    &&& (s.power_limit_uw matches Some(t) ==> spec_parse_u64(t@) is Some)
    &&& (s.time_window_us matches Some(t) ==> (spec_trim(t@).len() == 0 || spec_parse_u64(t@)
        is Some))
    &&& (s.min_power_uw matches Some(t) ==> spec_parse_u64(t@) is Some)
    &&& (s.max_power_uw matches Some(t) ==> spec_parse_u64(t@) is Some)
    &&& (s.min_time_window_us matches Some(t) ==> spec_parse_u64(t@) is Some)
    &&& (s.max_time_window_us matches Some(t) ==> spec_parse_u64(t@) is Some)
}

/// The time-window value of its attribute text: empty text (the peak-power
/// constraint) defaults to zero.
pub open spec fn spec_time_window(t: Seq<char>) -> u64 {
    if spec_trim(t).len() == 0 {
        0
    } else {
        match spec_parse_u64(t) {
            Some(v) => v,
            None => 0,
        }
    }
}

/// Where one constraint's attribute files live: the zone directory and the
/// constraint index within it.
pub struct ConstraintHandle {
    rapl_root: String,
    id: u8,
}

/// The mathematical content of a handle.
pub struct ConstraintHandleView {
    pub rapl_root: Seq<char>,
    pub id: u8,
}

impl View for ConstraintHandle {
    type V = ConstraintHandleView;

    closed spec fn view(&self) -> ConstraintHandleView {
        ConstraintHandleView { rapl_root: self.rapl_root@, id: self.id }
    }
}

/// The attribute file of one constraint field:
/// `<zone>/constraint_<id>_<field>`.
pub open spec fn spec_constraint_path(root: Seq<char>, id: u8, field: Seq<char>) -> Seq<char> {
    root + "/constraint_"@ + dec_digits(id as int) + "_"@ + field
}

impl ConstraintHandle {
    pub fn new(rapl_root: &str, id: u8) -> (h: ConstraintHandle)
        ensures
            h@.rapl_root == rapl_root@,
            h@.id == id,
    {
        ConstraintHandle { rapl_root: rapl_root.to_owned(), id }
    }

    /// The path of one of this constraint's attribute files.
    pub fn path(&self, field: &str) -> (p: String)
        ensures
            p@ == spec_constraint_path(self@.rapl_root, self@.id, field@),
    {
        let mut p = self.rapl_root.clone();
        p.append("/constraint_");
        let d = u64_to_dec(self.id as u64);
        p.append(d.as_str());
        p.append("_");
        p.append(field);
        p
    }
}

/// One discovered power-limit constraint: the required read-write settings,
/// the optional read-only bounds, and the handle its writes go through.
pub struct Constraint {
    handle: ConstraintHandle,
    pub name: Option<String>,
    pub power_limit_uw: u64,
    pub time_window_us: u64,
    pub min_power_uw: Option<u64>,
    pub max_power_uw: Option<u64>,
    pub min_time_window_us: Option<u64>,
    pub max_time_window_us: Option<u64>,
}

/// The mathematical content of a constraint.
pub struct ConstraintView {
    pub rapl_root: Seq<char>,
    pub id: u8,
    pub name: Option<Seq<char>>,
    pub power_limit_uw: u64,
    pub time_window_us: u64,
    pub min_power_uw: Option<u64>,
    pub max_power_uw: Option<u64>,
    pub min_time_window_us: Option<u64>,
    pub max_time_window_us: Option<u64>,
}

impl View for Constraint {
    type V = ConstraintView;

    closed spec fn view(&self) -> ConstraintView {
        ConstraintView {
            rapl_root: self.handle@.rapl_root,
            id: self.handle@.id,
            name: match self.name {
                Some(n) => Some(n@),
                None => None,
            },
            power_limit_uw: self.power_limit_uw,
            time_window_us: self.time_window_us,
            min_power_uw: self.min_power_uw,
            max_power_uw: self.max_power_uw,
            min_time_window_us: self.min_time_window_us,
            max_time_window_us: self.max_time_window_us,
        }
    }
}

/// What discovery yields for one constraint index: nothing when the required
/// read-write attributes are not both readable, else every field decoded
/// from the snapshot.
pub open spec fn spec_constraint_now(root: Seq<char>, id: u8, s: ConstraintSnapshot) -> Option<
    ConstraintView,
> {
    if s.power_limit_uw is Some && s.time_window_us is Some {
        Some(
            ConstraintView {
                rapl_root: root,
                id,
                name: match s.name {
                    Some(n) => Some(spec_trim(n@)),
                    None => None,
                },
                power_limit_uw: match parsed(s.power_limit_uw) {
                    Some(v) => v,
                    None => 0,
                },
                time_window_us: match s.time_window_us {
                    Some(t) => spec_time_window(t@),
                    None => 0,
                },
                min_power_uw: parsed(s.min_power_uw),
                max_power_uw: parsed(s.max_power_uw),
                min_time_window_us: parsed(s.min_time_window_us),
                max_time_window_us: parsed(s.max_time_window_us),
            },
        )
    } else {
        None
    }
}

/// A write of one decimal value to one attribute file, handed back to the
/// caller to perform: the library decides, the surrounding program writes.
pub struct WriteCommand {
    pub path: String,
    pub value: u64,
}

impl Constraint {
    /// Reads one constraint index out of a zone snapshot. The power limit is
    /// required: if it (or the time window) is not readable, this constraint
    /// does not exist and index scanning stops here.
    pub fn now(rapl_root: &str, id: u8, snap: &ConstraintSnapshot) -> (r: Option<Constraint>)
        requires
            constraint_snap_wf(*snap),
        ensures
            r matches Some(c) ==> Some(c@) == spec_constraint_now(rapl_root@, id, *snap),
            r is Some <==> spec_constraint_now(rapl_root@, id, *snap) is Some,
    {
        if snap.power_limit_uw.is_none() || snap.time_window_us.is_none() {
            return None;
        }
        let handle = ConstraintHandle::new(rapl_root, id);
        let power_limit_uw = required(&snap.power_limit_uw);
        let time_window_us = match &snap.time_window_us {
            Some(t) => {
                let trimmed = trim(t.as_str());
                if trimmed.as_str().is_empty() {
                    0
                } else {
                    match parse_u64(t.as_str()) {
                        Some(v) => v,
                        None => unreached(),
                    }
                }
            },
            None => unreached(),
        };
        let name = match &snap.name {
            Some(n) => Some(trim(n.as_str())),
            None => None,
        };
        Some(
            Constraint {
                handle,
                name,
                power_limit_uw,
                time_window_us,
                min_power_uw: optional(&snap.min_power_uw),
                max_power_uw: optional(&snap.max_power_uw),
                min_time_window_us: optional(&snap.min_time_window_us),
                max_time_window_us: optional(&snap.max_time_window_us),
            },
        )
    }

    /// Validates a new power limit against the bound discovered for this
    /// constraint and records it; the returned command tells the caller
    /// where to write the accepted value. A zero or out-of-bound value is a
    /// caller contract violation, ruled out before anything reaches hardware.
    pub fn set_power_limit_uw(&mut self, value: u64) -> (w: WriteCommand)
        requires
            value > 0,
            old(self)@.max_power_uw matches Some(m) ==> value <= m,
        ensures
            final(self)@ == (ConstraintView { power_limit_uw: value, ..old(self)@ }),
            w.value == value,
            w.path@ == spec_constraint_path(old(self)@.rapl_root, old(self)@.id, "power_limit_uw"@),
    {
        self.power_limit_uw = value;
        WriteCommand { path: self.handle.path("power_limit_uw"), value }
    }

    /// Validates a new time window against the bound discovered for this
    /// constraint and records it; the returned command tells the caller
    /// where to write the accepted value.
    pub fn set_time_window_us(&mut self, value: u64) -> (w: WriteCommand)
        requires
            value > 0,
            old(self)@.max_time_window_us matches Some(m) ==> value <= m,
        ensures
            final(self)@ == (ConstraintView { time_window_us: value, ..old(self)@ }),
            w.value == value,
            w.path@ == spec_constraint_path(old(self)@.rapl_root, old(self)@.id, "time_window_us"@),
    {
        self.time_window_us = value;
        WriteCommand { path: self.handle.path("time_window_us"), value }
    }
}

} // verus!
