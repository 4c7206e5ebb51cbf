//! WMI query settings and work-arounds.

use vstd::prelude::*;

use crate::common::strmap::StrMap;
use crate::common::text::{push_str, string_from_chars};
use crate::common::time::{known_zone, zone_known};

verus! {

/// How WMI objects are queried.
#[derive(Clone, Copy, PartialEq, Eq, Structural)]
pub enum WmiMethod {
    GetWmiObject,
    GetCimInstance,
    EnumerateCimInstance,
}

impl WmiMethod {
    /// Whether the method needs a PowerShell shell.
    pub fn requires_shell(&self) -> (r: bool)
        ensures
            r == (*self == WmiMethod::GetWmiObject || *self == WmiMethod::GetCimInstance),
    {
        match self {
            WmiMethod::GetWmiObject | WmiMethod::GetCimInstance => true,
            WmiMethod::EnumerateCimInstance => false,
        }
    }
}

/// The method to use: the configured one, else `GetWmiObject`.
pub fn get_method(configured: Option<WmiMethod>) -> (r: WmiMethod)
    ensures
        r == match configured {
            Some(m) => m,
            None => WmiMethod::GetWmiObject,
        },
{
    match configured {
        Some(m) => m,
        None => WmiMethod::GetWmiObject,
    }
}

/// Date-time properties that a host reports in local time although WMI
/// claims UTC: by class, the properties, and the time zone they are in.
pub struct LocalAsUtcQuirck {
    pub fields: StrMap<Vec<String>>,
    pub timezone: String,
}

/// Work-arounds for hosts.
pub struct WmiQuircks {
    pub local_as_utc: Option<LocalAsUtcQuirck>,
}

/// Why WMI settings cannot be used.
pub enum WmiError {
    /// A time zone name that is not known, with the reason.
    TimeZoneParse(String, String),
}

/// The property `property` of class `class` is listed.
pub open spec fn listed(q: LocalAsUtcQuirck, class: Seq<char>, property: Seq<char>) -> bool {
    q.fields@.contains_key(class) && q.fields@[class]@.map_values(|f: String| f@).contains(property)
}

/// Message for a time zone name that is not known.
pub open spec fn zone_error_reason() -> Seq<char> {
    "failed to parse timezone"@
}

impl LocalAsUtcQuirck {
    /// The quirk, when it covers the property `property` of class `class`.
    pub fn valid(&self, class: &String, property: &String) -> (r: Option<&LocalAsUtcQuirck>)
        ensures
            listed(*self, class@, property@) ==> r == Some(self),
            !listed(*self, class@, property@) ==> r is None,
    {
        match self.fields.get(class) {
            None => None,
            Some(fs) => {
                let mut i: usize = 0;
                while i < fs.len()
                    invariant
                        i <= fs@.len(),
                        self.fields@.contains_key(class@) && self.fields@[class@] == *fs,
                        forall|j: int| 0 <= j < i ==> (#[trigger] fs@[j])@ != property@,
                    decreases fs.len() - i,
                {
                    if fs[i] == *property {
                        proof {
                            let names = fs@.map_values(|f: String| f@);
                            assert(names[i as int] == property@);
                            assert(names.contains(property@));
                            assert(self.fields@[class@] == *fs);
                        }
                        return Some(self);
                    }
                    i = i + 1;
                }
                proof {
                    let names = fs@.map_values(|f: String| f@);
                    assert forall|j: int| 0 <= j < names.len() implies #[trigger] names[j] != property@ by {
                        assert(names[j] == fs@[j]@);
                    }
                }
                None
            },
        }
    }

    /// The time zone of the quirk, when its name is known.
    pub fn timezone(&self) -> (r: Result<String, WmiError>)
        ensures
            zone_known(self.timezone@) ==> (r matches Ok(z) && z@ == self.timezone@),
            !zone_known(self.timezone@) ==> (r matches Err(WmiError::TimeZoneParse(n, m)) && n@ == self.timezone@ && m@ == zone_error_reason()),
    {
        if known_zone(self.timezone.as_str()) {
            Ok(self.timezone.clone())
        } else {
            let mut out: Vec<char> = Vec::new();
            push_str(&mut out, "failed to parse timezone");
            Err(WmiError::TimeZoneParse(self.timezone.clone(), string_from_chars(out.as_slice())))
        }
    }
}

impl WmiQuircks {
    /// The time zone that property `property` of class `class` is reported
    /// in, when the quirk covers it.
    pub fn get_tz(&self, class: &String, property: &String) -> (r: Option<Result<String, WmiError>>)
        ensures
            match self.local_as_utc {
                Some(q) => if listed(q, class@, property@) {
                    if zone_known(q.timezone@) {
                        r matches Some(Ok(z)) && z@ == q.timezone@
                    } else {
                        r matches Some(Err(WmiError::TimeZoneParse(n, m))) && n@ == q.timezone@ && m@ == zone_error_reason()
                    }
                } else {
                    r is None
                },
                None => r is None,
            },
    {
        match &self.local_as_utc {
            None => None,
            Some(q) => match q.valid(class, property) {
                Some(q) => Some(q.timezone()),
                None => None,
            },
        }
    }
}

} // verus!
