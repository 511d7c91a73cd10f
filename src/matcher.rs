//! Targeting rules: whether an application context is eligible for an
//! experiment.

use vstd::prelude::*;
use vstd::utf8::encode_utf8;

verus! {

/// What the host application says of itself and of the device it runs on.
/// An absent field is unknown.
#[derive(Clone, Debug, Default)]
pub struct AppContext {
    pub app_id: Option<String>,
    pub app_version: Option<String>,
    pub locale_language: Option<String>,
    pub locale_country: Option<String>,
    pub device_manufacturer: Option<String>,
    pub device_model: Option<String>,
    pub region: Option<String>,
    pub debug_tag: Option<String>,
}

/// A targeting rule. An absent field, or an empty list, places no constraint
/// on its dimension.
#[derive(Clone, Debug, Default)]
pub struct Matcher {
    pub app_id: Option<String>,
    pub app_display_version: Option<String>,
    pub app_min_version: Option<String>,
    pub app_max_version: Option<String>,
    pub locale_language: Option<String>,
    pub locale_country: Option<String>,
    pub device_manufacturer: Option<String>,
    pub device_model: Option<String>,
    pub regions: Vec<String>,
    pub debug_tags: Vec<String>,
}

pub open spec fn is_digit(c: u8) -> bool {
    48 <= c <= 57
}

/// `v` with the decimal digit `c` appended, saturating at `u64::MAX`.
pub open spec fn push_digit(v: u64, c: u8) -> u64 {
    let x = v as nat * 10 + (c - 48) as nat;
    if x > u64::MAX {
        u64::MAX
    } else {
        x as u64
    }
}

/// One byte of a version string read into (finished components, value of the
/// current component, whether the current component is still in its leading
/// digits).
pub open spec fn scan_step(st: (Seq<u64>, u64, bool), c: u8) -> (Seq<u64>, u64, bool) {
    if c == 46 {
        (st.0.push(st.1), 0u64, true)
    } else if st.2 && is_digit(c) {
        (st.0, push_digit(st.1, c), true)
    } else {
        (st.0, st.1, false)
    }
}

pub open spec fn scan(b: Seq<u8>) -> (Seq<u64>, u64, bool)
    decreases b.len(),
{
    if b.len() == 0 {
        (Seq::empty(), 0u64, true)
    } else {
        scan_step(scan(b.drop_last()), b.last())
    }
}

/// The numeric components of a version: the string split at each `.`, each
/// piece valued by its leading decimal digits (0 where it has none).
pub open spec fn version_parts(b: Seq<u8>) -> Seq<u64> {
    let st = scan(b);
    st.0.push(st.1)
}

/// Component `i` of a version, where a missing component counts as 0.
pub open spec fn part_at(p: Seq<u64>, i: int) -> u64 {
    if 0 <= i < p.len() {
        p[i]
    } else {
        0
    }
}

/// -1, 0 or 1 as `a` orders before, equal to or after `b`, comparing the
/// components from position `i` on.
pub open spec fn compare_parts_from(a: Seq<u64>, b: Seq<u64>, i: int) -> int
    decreases a.len() + b.len() - i,
{
    if i < 0 || (i >= a.len() && i >= b.len()) {
        0
    } else if part_at(a, i) < part_at(b, i) {
        -1
    } else if part_at(a, i) > part_at(b, i) {
        1
    } else {
        compare_parts_from(a, b, i + 1)
    }
}

/// Semantic ordering of two version strings given as their UTF-8 bytes.
pub open spec fn version_cmp(a: Seq<u8>, b: Seq<u8>) -> int {
    compare_parts_from(version_parts(a), version_parts(b), 0)
}

/// Splits a version string into its numeric components.
pub fn parse_version(s: &str) -> (r: Vec<u64>)
    ensures
        r@ == version_parts(encode_utf8(s@)),
{
    let b = s.as_bytes();
    let mut parts: Vec<u64> = Vec::new();
    let mut current: u64 = 0;
    let mut reading = true;
    let mut i: usize = 0;
    while i < b.len()
        invariant
            0 <= i <= b@.len(),
            b@ == encode_utf8(s@),
            scan(b@.take(i as int)) == (parts@, current, reading),
        decreases b@.len() - i,
    {
        let c = b[i];
        assert(b@.take(i + 1).drop_last() == b@.take(i as int));
        if c == 46 {
            parts.push(current);
            current = 0;
            reading = true;
        } else if reading && 48 <= c && c <= 57 {
            let d = (c - 48) as u64;
            current = match current.checked_mul(10) {
                Some(m) => match m.checked_add(d) {
                    Some(x) => x,
                    None => u64::MAX,
                },
                None => u64::MAX,
            };
        } else {
            reading = false;
        }
        i += 1;
    }
    assert(b@.take(b@.len() as int) == b@);
    parts.push(current);
    parts
}

/// Compares two version strings by their numeric components: -1, 0 or 1 as
/// `a` is older than, the same as, or newer than `b`.
pub fn compare_versions(a: &str, b: &str) -> (r: i8)
    ensures
        r as int == version_cmp(encode_utf8(a@), encode_utf8(b@)),
{
    let pa = parse_version(a);
    let pb = parse_version(b);
    let n = if pa.len() > pb.len() {
        pa.len()
    } else {
        pb.len()
    };
    let mut i: usize = 0;
    while i < n
        invariant
            i <= n,
            n == pa@.len() || n == pb@.len(),
            n >= pa@.len() && n >= pb@.len(),
            pa@ == version_parts(encode_utf8(a@)),
            pb@ == version_parts(encode_utf8(b@)),
            compare_parts_from(pa@, pb@, 0) == compare_parts_from(pa@, pb@, i as int),
        decreases n - i,
    {
        let x: u64 = if i < pa.len() {
            pa[i]
        } else {
            0
        };
        let y: u64 = if i < pb.len() {
            pb[i]
        } else {
            0
        };
        if x < y {
            return -1;
        }
        if x > y {
            return 1;
        }
        i += 1;
    }
    0
}

/// A constraint on one text field: none, or a value that the context must
/// hold. A context that leaves the field unknown does not meet a constraint
/// on it.
pub open spec fn field_matches(rule: Option<String>, value: Option<String>) -> bool {
    match rule {
        None => true,
        Some(x) => value is Some && value->0@ == x@,
    }
}

/// A constraint by a set of values: an empty set constrains nothing, else the
/// context must hold one of them.
pub open spec fn set_matches(rule: Seq<String>, value: Option<String>) -> bool {
    rule.len() == 0 || (value is Some && exists|i: int|
        0 <= i < rule.len() && #[trigger] rule[i]@ == value->0@)
}

/// A version bound: none, or the context's version must be known and compare
/// to the bound with any outcome but `sign` (-1: older, 1: newer).
pub open spec fn bound_matches(bound: Option<String>, version: Option<String>, sign: int) -> bool {
    match bound {
        None => true,
        Some(b) => version is Some && version_cmp(encode_utf8(version->0@), encode_utf8(b@))
            != sign,
    }
}

/// Whether `ctx` satisfies every constraint of `rule`. The display version is
/// compared exactly; the minimum and maximum versions semantically.
pub open spec fn matches_spec(ctx: &AppContext, rule: &Matcher) -> bool {
    &&& field_matches(rule.app_id, ctx.app_id)
    &&& field_matches(rule.app_display_version, ctx.app_version)
    &&& bound_matches(rule.app_min_version, ctx.app_version, -1)
    &&& bound_matches(rule.app_max_version, ctx.app_version, 1)
    &&& field_matches(rule.locale_language, ctx.locale_language)
    &&& field_matches(rule.locale_country, ctx.locale_country)
    &&& field_matches(rule.device_manufacturer, ctx.device_manufacturer)
    &&& field_matches(rule.device_model, ctx.device_model)
    &&& set_matches(rule.regions@, ctx.region)
    &&& set_matches(rule.debug_tags@, ctx.debug_tag)
}

fn field_ok(rule: &Option<String>, value: &Option<String>) -> (r: bool)
    ensures
        r == field_matches(*rule, *value),
{
    match rule {
        None => true,
        Some(x) => match value {
            Some(v) => v.eq(x),
            None => false,
        },
    }
}

fn set_ok(rule: &Vec<String>, value: &Option<String>) -> (r: bool)
    ensures
        r == set_matches(rule@, *value),
{
    if rule.len() == 0 {
        return true;
    }
    match value {
        None => false,
        Some(v) => {
            let mut i: usize = 0;
            while i < rule.len()
                invariant
                    i <= rule@.len(),
                    value is Some && value->0@ == v@,
                    forall|j: int| 0 <= j < i ==> #[trigger] rule@[j]@ != v@,
                decreases rule@.len() - i,
            {
                if rule[i].eq(v) {
                    assert(rule@[i as int]@ == v@);
                    return true;
                }
                i += 1;
            }
            false
        },
    }
}

fn bound_ok(bound: &Option<String>, version: &Option<String>, sign: i8) -> (r: bool)
    ensures
        r == bound_matches(*bound, *version, sign as int),
{
    match bound {
        None => true,
        Some(b) => match version {
            Some(v) => compare_versions(v.as_str(), b.as_str()) != sign,
            None => false,
        },
    }
}

/// Whether the application context satisfies the targeting rule.
pub fn matches_rule(ctx: &AppContext, rule: &Matcher) -> (r: bool)
    ensures
        r == matches_spec(ctx, rule),
{
    field_ok(&rule.app_id, &ctx.app_id) && field_ok(&rule.app_display_version, &ctx.app_version)
        && bound_ok(&rule.app_min_version, &ctx.app_version, -1) && bound_ok(
        &rule.app_max_version,
        &ctx.app_version,
        1,
    ) && field_ok(&rule.locale_language, &ctx.locale_language) && field_ok(
        &rule.locale_country,
        &ctx.locale_country,
    ) && field_ok(&rule.device_manufacturer, &ctx.device_manufacturer) && field_ok(
        &rule.device_model,
        &ctx.device_model,
    ) && set_ok(&rule.regions, &ctx.region) && set_ok(&rule.debug_tags, &ctx.debug_tag)
}

} // verus!
