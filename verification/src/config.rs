//! Configuration resolution: a raw, untyped settings table (two optional
//! entries, `levels` and `marker`) is validated into a `Config`. Resolution
//! is pure and happens before any tree mutation, so an invalid setting aborts
//! a run without touching the tree.

use vstd::prelude::*;

verus! {

/// A raw setting value, as the host tool's configuration table holds it.
/// Only the shapes this system inspects are distinguished; every other kind
/// of value (boolean, float, table, datetime) is `Other`.
#[derive(Debug, PartialEq)]
pub enum RawValue {
    Int(i64),
    Str(String),
    Array(Vec<RawValue>),
    Other,
}

/// The raw settings table scoped to this system's entry: its two recognized
/// keys, each optional.
#[derive(Debug, PartialEq)]
pub struct RawSettings {
    pub levels: Option<RawValue>,
    pub marker: Option<RawValue>,
}

/// Why configuration resolution failed; each variant carries the offending
/// raw value.
#[derive(Debug, PartialEq)]
pub enum ConfigError {
    /// `levels` is not an array, or an element of it is not an integer that
    /// fits in `usize` (the carried value is the first such element).
    InvalidLevels(RawValue),
    /// `marker` is not a string.
    InvalidMarker(RawValue),
}

/// The validated configuration.
#[derive(Debug, PartialEq)]
pub struct Config {
    /// Nesting depths at which every chapter is zero-indexed globally.
    /// Empty by default, which applies no global change. Depth 0 is the top
    /// level, depth 1 the first level of sub-chapters, and so on. Chapters
    /// covered by a depth in this set ignore the `marker`.
    pub levels: Vec<usize>,
    /// Marker whose presence in a chapter's content zero-indexes that
    /// chapter's direct children. An empty marker matches everywhere.
    pub marker: String,
}

/// Mathematical model of a configuration.
#[verifier::ext_equal]
pub struct ConfigView {
    pub levels: Seq<usize>,
    pub marker: Seq<char>,
}

impl View for Config {
    type V = ConfigView;

    open spec fn view(&self) -> ConfigView {
        ConfigView { levels: self.levels@, marker: self.marker@ }
    }
}

/// The marker used when the settings give none.
pub open spec fn default_marker() -> Seq<char> {
    "<!-- ch0 -->\n"@
}

/// A usable `levels` element: an integer that fits in `usize`.
pub open spec fn valid_level(v: RawValue) -> bool {
    &&& v is Int
    &&& 0 <= v->Int_0
    &&& v->Int_0 <= usize::MAX
}

/// Every element of the array is a usable level.
pub open spec fn levels_ok(arr: Seq<RawValue>) -> bool {
    forall|i: int| 0 <= i < arr.len() ==> valid_level(#[trigger] arr[i])
}

/// The depths a valid `levels` array configures, in order.
pub open spec fn level_values(arr: Seq<RawValue>) -> Seq<usize> {
    Seq::new(arr.len(), |i: int| arr[i]->Int_0 as usize)
}

/// The first element that is not a usable level.
pub open spec fn first_invalid(arr: Seq<RawValue>) -> RawValue
    decreases arr,
{
    if arr.len() == 0 {
        RawValue::Other
    } else if !valid_level(arr[0]) {
        arr[0]
    } else {
        first_invalid(arr.drop_first())
    }
}

/// The `levels` setting is absent or a valid array.
pub open spec fn levels_setting_ok(o: Option<RawValue>) -> bool {
    match o {
        Option::None => true,
        Option::Some(v) => v is Array && levels_ok(v->Array_0@),
    }
}

/// The `marker` setting is absent or a string.
pub open spec fn marker_setting_ok(o: Option<RawValue>) -> bool {
    match o {
        Option::None => true,
        Option::Some(v) => v is Str,
    }
}

/// The depths that resolution yields.
pub open spec fn spec_resolved_levels(raw: Option<RawSettings>) -> Seq<usize> {
    match raw {
        Option::None => Seq::empty(),
        Option::Some(s) => match s.levels {
            Option::None => Seq::empty(),
            Option::Some(v) => level_values(v->Array_0@),
        },
    }
}

/// The marker that resolution yields.
pub open spec fn spec_resolved_marker(raw: Option<RawSettings>) -> Seq<char> {
    match raw {
        Option::None => default_marker(),
        Option::Some(s) => match s.marker {
            Option::None => default_marker(),
            Option::Some(v) => v->Str_0@,
        },
    }
}

/// The error resolution reports: a `levels` violation wins over a `marker`
/// violation, and an invalid array is reported by its first bad element.
pub open spec fn spec_resolve_error(s: RawSettings) -> ConfigError {
    if !levels_setting_ok(s.levels) {
        ConfigError::InvalidLevels(
            match s.levels {
                Option::Some(v) => if v is Array {
                    first_invalid(v->Array_0@)
                } else {
                    v
                },
                Option::None => RawValue::Other,
            },
        )
    } else {
        ConfigError::InvalidMarker(
            match s.marker {
                Option::Some(v) => v,
                Option::None => RawValue::Other,
            },
        )
    }
}

/// A fresh copy of the default marker.
fn default_marker_string() -> (r: String)
    ensures
        r@ == default_marker(),
{
    "<!-- ch0 -->\n".to_owned()
}

/// With a prefix of usable levels and a bad element at `i`, the first
/// invalid element of the whole array is that element.
proof fn lemma_first_invalid_at(arr: Seq<RawValue>, i: int)
    requires
        0 <= i < arr.len(),
        forall|j: int| 0 <= j < i ==> valid_level(#[trigger] arr[j]),
        !valid_level(arr[i]),
    ensures
        first_invalid(arr) == arr[i],
        !levels_ok(arr),
    decreases i,
{
    if i > 0 {
        lemma_first_invalid_at(arr.drop_first(), i - 1);
        assert(arr.drop_first()[i - 1] == arr[i]);
    }
}

impl Default for Config {
    /// The default configuration: no global depths, the default marker.
    fn default() -> (c: Config)
        ensures
            c@.levels == Seq::<usize>::empty(),
            c@.marker == default_marker(),
    {
        Config { levels: Vec::new(), marker: default_marker_string() }
    }
}

impl Config {
    /// Validates the raw settings. Absent settings fall back to the default
    /// (no global depths, default marker); `levels` must be an array of
    /// integers that fit in `usize`; `marker` must be a string. The first
    /// violation is returned as the error, `levels` being checked first.
    #[verifier::loop_isolation(false)]
    pub fn resolve(raw: Option<RawSettings>) -> (r: Result<Config, ConfigError>)
        ensures
            (match raw {
                Option::None => r is Ok,
                Option::Some(s) => r is Ok <==> levels_setting_ok(s.levels)
                    && marker_setting_ok(s.marker),
            }),
            (match r {
                Result::Ok(c) => c@.levels == spec_resolved_levels(raw)
                    && c@.marker == spec_resolved_marker(raw),
                Result::Err(e) => raw matches Some(s) && e == spec_resolve_error(s),
            }),
    {
        let settings = match raw {
            Option::Some(s) => s,
            Option::None => {
                return Result::Ok(Config::default());
            },
        };
        let RawSettings { levels, marker } = settings;
        let mut out_levels: Vec<usize> = Vec::new();
        match levels {
            Option::None => {},
            Option::Some(v) => {
                match v {
                    RawValue::Array(mut arr) => {
                        let ghost arr0 = arr@;
                        let mut i: usize = 0;
                        while i < arr.len()
                            invariant
                                arr@ == arr0,
                                i <= arr0.len(),
                                forall|j: int| 0 <= j < i ==> valid_level(#[trigger] arr0[j]),
                                out_levels@.len() == i as int,
                                forall|j: int| 0 <= j < i ==> out_levels@[j]
                                    == arr0[j]->Int_0 as usize,
                            decreases arr0.len() - i,
                        {
                            let good: bool = match &arr[i] {
                                RawValue::Int(n) => *n >= 0 && (*n as u64) <= (usize::MAX as u64),
                                _ => false,
                            };
                            if !good {
                                proof {
                                    lemma_first_invalid_at(arr0, i as int);
                                }
                                let bad = arr.remove(i);
                                return Result::Err(ConfigError::InvalidLevels(bad));
                            }
                            match &arr[i] {
                                RawValue::Int(n) => {
                                    let nv: i64 = *n;
                                    out_levels.push(nv as usize);
                                },
                                _ => {},
                            }
                            i += 1;
                        }
                        proof {
                            assert(out_levels@ =~= level_values(arr0));
                        }
                    },
                    other => {
                        return Result::Err(ConfigError::InvalidLevels(other));
                    },
                }
            },
        }
        let out_marker: String = match marker {
            Option::None => default_marker_string(),
            Option::Some(v) => match v {
                RawValue::Str(s) => s,
                other => {
                    return Result::Err(ConfigError::InvalidMarker(other));
                },
            },
        };
        Result::Ok(Config { levels: out_levels, marker: out_marker })
    }
}

} // verus!
