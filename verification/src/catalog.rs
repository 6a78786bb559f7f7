//! The decisions the tool catalog makes: license tier names, which tools
//! are available to a runtime, the display defaults and render hints that
//! manifest tags carry, and the order parameters are listed in.

use crate::text::{
    chars_of, eq_ignore_ascii_case, eq_ignore_case, has_prefix, push_str, str_eq,
    strip_prefix, to_ascii_lowercase, to_owned_string, trim, trim_spec, lower_seq,
};
use crate::assoc::{assoc_get, assoc_insert, flag_pair_get, flag_pair_set, flag_pairs_view, text_pair_get, text_pair_set, text_pairs_view};
use crate::tool::{tier_above, tier_rank, LicenseTier, ToolError, ToolErrorV, ToolManifest};
use vstd::prelude::*;

verus! {

// ─────────────────────────────────────────────────────────────────────────────
// License tiers
// ─────────────────────────────────────────────────────────────────────────────

/// The name of a tier.
pub open spec fn tier_name(t: LicenseTier) -> Seq<char> {
    match t {
        LicenseTier::Open => "open"@,
        LicenseTier::Pro => "pro"@,
        LicenseTier::Enterprise => "enterprise"@,
    }
}

/// The name of a tier.
pub fn license_tier_to_str(tier: LicenseTier) -> (r: &'static str)
    ensures
        r@ == tier_name(tier),
{
    match tier {
        LicenseTier::Open => "open",
        LicenseTier::Pro => "pro",
        LicenseTier::Enterprise => "enterprise",
    }
}

/// The tier a name stands for, in any ASCII case.
pub open spec fn tier_of_name(s: Seq<char>) -> Option<LicenseTier> {
    let l = lower_seq(s);
    if l == "open"@ {
        Some(LicenseTier::Open)
    } else if l == "pro"@ {
        Some(LicenseTier::Pro)
    } else if l == "enterprise"@ {
        Some(LicenseTier::Enterprise)
    } else {
        None
    }
}

/// The text of the error for an unknown tier name.
pub open spec fn invalid_tier_msg(s: Seq<char>) -> Seq<char> {
    "invalid tier '"@ + s + "', expected open|pro|enterprise"@
}

/// The tier a name stands for, in any ASCII case; fails with "invalid
/// tier '<name>', expected open|pro|enterprise" otherwise.
pub fn parse_tier(tier: &str) -> (r: Result<LicenseTier, ToolError>)
    ensures
        match tier_of_name(tier@) {
            Some(t) => r == Ok::<LicenseTier, ToolError>(t),
            None => r matches Err(e) && e@ == ToolErrorV::InvalidRequest(invalid_tier_msg(tier@)),
        },
{
    let l = to_ascii_lowercase(tier);
    let ls = l.as_str();
    if str_eq(ls, "open") {
        Ok(LicenseTier::Open)
    } else if str_eq(ls, "pro") {
        Ok(LicenseTier::Pro)
    } else if str_eq(ls, "enterprise") {
        Ok(LicenseTier::Enterprise)
    } else {
        let mut m = to_owned_string("invalid tier '");
        push_str(&mut m, tier);
        push_str(&mut m, "', expected open|pro|enterprise");
        Err(ToolError::InvalidRequest(m))
    }
}

/// A tier's name parses back to the tier.
pub proof fn law_tier_name_roundtrip(t: LicenseTier)
    ensures
        tier_of_name(tier_name(t)) == Some(t),
{
    reveal_strlit("open");
    reveal_strlit("pro");
    reveal_strlit("enterprise");
    let n = tier_name(t);
    assert(lower_seq(n) =~= n);
    assert("open"@.len() == 4 && "pro"@.len() == 3 && "enterprise"@.len() == 10);
}

/// The text of the error for asking for Pro tools in a build without them.
pub open spec fn no_pro_msg() -> Seq<char> {
    "include_pro=true requested but this build does not include Pro support; rebuild with feature 'pro'"@
}

/// This build has no Pro tools: asking for them fails.
pub fn validate_include_pro(include_pro: bool) -> (r: Result<(), ToolError>)
    ensures
        !include_pro ==> r is Ok,
        include_pro ==> (r matches Err(e) && e@ == ToolErrorV::InvalidRequest(no_pro_msg())),
{
    if include_pro {
        return Err(
            ToolError::InvalidRequest(
                to_owned_string(
                    "include_pro=true requested but this build does not include Pro support; rebuild with feature 'pro'",
                ),
            ),
        );
    }
    Ok(())
}

// ─────────────────────────────────────────────────────────────────────────────
// Availability
// ─────────────────────────────────────────────────────────────────────────────

/// Why a tool of the catalog is locked for a runtime.
#[derive(Clone, Copy, PartialEq, Eq, Debug, Structural)]
pub enum LockReason {
    /// The tool is a Pro or Enterprise tool and Pro tools are not included.
    ProNotIncluded,
    /// The tool needs a higher tier than the runtime has.
    TierInsufficient,
}

/// Why a tool needing tier `required` is locked, if it is: Pro tools are
/// locked without `include_pro`, and any tool above the effective tier.
pub open spec fn lock_spec(include_pro: bool, required: LicenseTier, effective: LicenseTier) -> Option<
    LockReason,
> {
    if !include_pro && (required == LicenseTier::Pro || required == LicenseTier::Enterprise) {
        Some(LockReason::ProNotIncluded)
    } else if tier_rank(required) > tier_rank(effective) {
        Some(LockReason::TierInsufficient)
    } else {
        None
    }
}

/// Why a tool needing tier `required` is locked for a runtime, if it is.
pub fn lock_reason(include_pro: bool, required: LicenseTier, effective: LicenseTier) -> (r: Option<
    LockReason,
>)
    ensures
        r == lock_spec(include_pro, required, effective),
{
    if !include_pro && (required == LicenseTier::Pro || required == LicenseTier::Enterprise) {
        Some(LockReason::ProNotIncluded)
    } else if tier_above(required, effective) {
        Some(LockReason::TierInsufficient)
    } else {
        None
    }
}

/// The name of a lock reason.
pub fn lock_reason_str(r: LockReason) -> (s: &'static str)
    ensures
        s@ == match r {
            LockReason::ProNotIncluded => "pro_not_included"@,
            LockReason::TierInsufficient => "tier_insufficient"@,
        },
{
    match r {
        LockReason::ProNotIncluded => "pro_not_included",
        LockReason::TierInsufficient => "tier_insufficient",
    }
}

/// An Open tool is never locked while the runtime's Pro settings allow
/// it; a tool is available exactly when it needs no more than the
/// effective tier and, if it is a Pro or Enterprise tool, Pro tools are
/// included.
pub proof fn law_availability(include_pro: bool, required: LicenseTier, effective: LicenseTier)
    ensures
        lock_spec(include_pro, LicenseTier::Open, effective) is None,
        (lock_spec(include_pro, required, effective) is None) <==> (tier_rank(required) <= tier_rank(
            effective,
        ) && (include_pro || required == LicenseTier::Open)),
{
}

/// The text of `true` or `false`.
pub open spec fn bool_text(b: bool) -> Seq<char> {
    if b {
        "true"@
    } else {
        "false"@
    }
}

fn push_bool(s: &mut String, b: bool)
    ensures
        final(s)@ == old(s)@ + bool_text(b),
{
    if b {
        push_str(s, "true");
    } else {
        push_str(s, "false");
    }
}

/// The message explaining that a Pro tool is not included.
pub open spec fn pro_not_included_msg(
    tool_id: Seq<char>,
    include_pro: bool,
    requested: LicenseTier,
    effective: LicenseTier,
) -> Seq<char> {
    "This is a PRO tool: "@ + tool_id + ". Current runtime: include_pro="@ + bool_text(include_pro)
        + ", tier="@ + tier_name(requested) + ", effective_tier="@ + tier_name(effective)
        + ". Reason: pro_not_included. Action: enable include_pro=True and use a valid Pro/Enterprise entitlement."@
}

/// The message explaining that a tool needs a higher tier.
pub open spec fn tier_insufficient_msg(
    tool_id: Seq<char>,
    include_pro: bool,
    requested: LicenseTier,
    effective: LicenseTier,
    required: LicenseTier,
) -> Seq<char> {
    "This is a PRO tool: "@ + tool_id + ". Current runtime: include_pro="@ + bool_text(include_pro)
        + ", tier="@ + tier_name(requested) + ", effective_tier="@ + tier_name(effective)
        + ". Reason: tier_insufficient (requires "@ + tier_name(required) + "). Action: use tier='"@
        + tier_name(required) + "' or higher with a valid entitlement."@
}

/// The error for a tool the runtime could not find: when the build's
/// catalog has it (`required` is its tier) and it is locked, a license
/// error that says why; otherwise "not found".
pub fn not_found_error(
    tool_id: &str,
    required: Option<LicenseTier>,
    include_pro: bool,
    requested: LicenseTier,
    effective: LicenseTier,
) -> (r: ToolError)
    ensures
        r@ == match required {
            None => ToolErrorV::NotFound(tool_id@),
            Some(t) => match lock_spec(include_pro, t, effective) {
                Some(LockReason::ProNotIncluded) => ToolErrorV::LicenseDenied(
                    pro_not_included_msg(tool_id@, include_pro, requested, effective),
                ),
                Some(LockReason::TierInsufficient) => ToolErrorV::LicenseDenied(
                    tier_insufficient_msg(tool_id@, include_pro, requested, effective, t),
                ),
                None => ToolErrorV::NotFound(tool_id@),
            },
        },
{
    let t = match required {
        None => {
            return ToolError::NotFound(to_owned_string(tool_id));
        },
        Some(t) => t,
    };
    match lock_reason(include_pro, t, effective) {
        Some(LockReason::ProNotIncluded) => {
            let mut m = to_owned_string("This is a PRO tool: ");
            push_str(&mut m, tool_id);
            push_str(&mut m, ". Current runtime: include_pro=");
            push_bool(&mut m, include_pro);
            push_str(&mut m, ", tier=");
            push_str(&mut m, license_tier_to_str(requested));
            push_str(&mut m, ", effective_tier=");
            push_str(&mut m, license_tier_to_str(effective));
            push_str(
                &mut m,
                ". Reason: pro_not_included. Action: enable include_pro=True and use a valid Pro/Enterprise entitlement.",
            );
            ToolError::LicenseDenied(m)
        },
        Some(LockReason::TierInsufficient) => {
            let mut m = to_owned_string("This is a PRO tool: ");
            push_str(&mut m, tool_id);
            push_str(&mut m, ". Current runtime: include_pro=");
            push_bool(&mut m, include_pro);
            push_str(&mut m, ", tier=");
            push_str(&mut m, license_tier_to_str(requested));
            push_str(&mut m, ", effective_tier=");
            push_str(&mut m, license_tier_to_str(effective));
            push_str(&mut m, ". Reason: tier_insufficient (requires ");
            push_str(&mut m, license_tier_to_str(t));
            push_str(&mut m, "). Action: use tier='");
            push_str(&mut m, license_tier_to_str(t));
            push_str(&mut m, "' or higher with a valid entitlement.");
            ToolError::LicenseDenied(m)
        },
        None => ToolError::NotFound(to_owned_string(tool_id)),
    }
}

// ─────────────────────────────────────────────────────────────────────────────
// License time
// ─────────────────────────────────────────────────────────────────────────────

/// The seconds left until `expires_at`, none once it has passed.
pub fn seconds_remaining(expires_at: u64, now: u64) -> (r: u64)
    ensures
        r == if expires_at > now {
            expires_at - now
        } else {
            0
        },
{
    if now >= expires_at {
        0
    } else {
        expires_at - now
    }
}

/// The whole or partial days in `seconds`, rounded up.
pub fn days_remaining(seconds: u64) -> (r: u64)
    ensures
        r == (seconds + 86399) / 86400,
{
    let q = seconds / 86400;
    if seconds % 86400 == 0 {
        q
    } else {
        q + 1
    }
}


// ─────────────────────────────────────────────────────────────────────────────
// Integers in text
// ─────────────────────────────────────────────────────────────────────────────

/// An ASCII decimal digit.
pub open spec fn is_digit(c: char) -> bool {
    '0' <= c && c <= '9'
}

/// The value of a sequence of decimal digits.
pub open spec fn digits_value(s: Seq<char>) -> int
    decreases s.len(),
{
    if s.len() == 0 {
        0
    } else {
        digits_value(s.drop_last()) * 10 + ((s.last() as int) - 48)
    }
}

/// Every character is a decimal digit.
pub open spec fn all_digits(s: Seq<char>) -> bool {
    forall|i: int| 0 <= i < s.len() ==> is_digit(#[trigger] s[i])
}

/// The `i64` a text spells (`str::parse::<i64>`): an optional `+` or `-`,
/// then one or more decimal digits, with a value in range; no whitespace.
pub open spec fn parse_i64_spec(s: Seq<char>) -> Option<i64> {
    let neg = s.len() > 0 && s[0] == '-';
    let body = if s.len() > 0 && (s[0] == '-' || s[0] == '+') {
        s.drop_first()
    } else {
        s
    };
    if body.len() == 0 || !all_digits(body) {
        None
    } else {
        let v = if neg {
            -digits_value(body)
        } else {
            digits_value(body)
        };
        if i64::MIN <= v && v <= i64::MAX {
            Some(v as i64)
        } else {
            None
        }
    }
}

/// A prefix of digits is worth no more than the whole.
proof fn lemma_digits_prefix(s: Seq<char>, k: int)
    requires
        all_digits(s),
        0 <= k <= s.len(),
    ensures
        digits_value(s.take(k)) <= digits_value(s),
        0 <= digits_value(s.take(k)),
    decreases s.len() - k,
{
    if k < s.len() {
        lemma_digits_prefix(s, k + 1);
        assert(s.take(k + 1).drop_last() =~= s.take(k));
        assert(is_digit(s[k]));
        lemma_digits_nonneg(s.take(k));
    } else {
        assert(s.take(k) =~= s);
        lemma_digits_nonneg(s);
    }
}

proof fn lemma_digits_nonneg(s: Seq<char>)
    requires
        all_digits(s),
    ensures
        digits_value(s) >= 0,
    decreases s.len(),
{
    if s.len() > 0 {
        assert(all_digits(s.drop_last())) by {
            assert forall|i: int| 0 <= i < s.len() - 1 implies is_digit(#[trigger] s.drop_last()[i]) by {
                assert(s.drop_last()[i] == s[i]);
            }
        }
        lemma_digits_nonneg(s.drop_last());
        assert(is_digit(s[s.len() - 1]));
    }
}

/// The `i64` a text spells (see [`parse_i64_spec`]).
pub fn parse_i64(s: &str) -> (r: Option<i64>)
    ensures
        r == parse_i64_spec(s@),
{
    let v = chars_of(s);
    let mut start: usize = 0;
    let mut neg = false;
    if v.len() > 0 && (v[0] == '-' || v[0] == '+') {
        neg = v[0] == '-';
        start = 1;
    }
    let ghost body = if v@.len() > 0 && (v@[0] == '-' || v@[0] == '+') {
        v@.drop_first()
    } else {
        v@
    };
    assert(body =~= v@.subrange(start as int, v@.len() as int));
    if start == v.len() {
        return None;
    }
    let mut mag: u64 = 0;
    let mut i: usize = start;
    while i < v.len()
        invariant
            start <= i <= v.len(),
            v@ == s@,
            body == v@.subrange(start as int, v@.len() as int),
            body == (if v@.len() > 0 && (v@[0] == '-' || v@[0] == '+') {
                v@.drop_first()
            } else {
                v@
            }),
            neg == (v@.len() > 0 && v@[0] == '-'),
            all_digits(body.take(i - start)),
            mag == digits_value(body.take(i - start)),
            mag <= 9223372036854775808u64,
        decreases v.len() - i,
    {
        let c = v[i];
        assert(body[i - start] == c);
        if !('0' <= c && c <= '9') {
            assert(!all_digits(body));
            return None;
        }
        let d: u64 = ((c as u32) - 48) as u64;
        assert(body.take(i - start + 1).drop_last() =~= body.take(i - start));
        assert(all_digits(body.take(i - start + 1))) by {
            assert forall|j: int| 0 <= j < i - start + 1 implies is_digit(#[trigger] body.take(i - start + 1)[j]) by {
                if j < i - start {
                    assert(body.take(i - start + 1)[j] == body.take(i - start)[j]);
                }
            }
        }
        if mag > (9223372036854775808u64 - d) / 10 {
            proof {
                assert(mag * 10 + d > 9223372036854775808u64) by (nonlinear_arith)
                    requires
                        mag > (9223372036854775808u64 - d) / 10,
                        d <= 9,
                ;
                if all_digits(body) {
                    lemma_digits_prefix(body, i - start + 1);
                }
            }
            return None;
        }
        assert(mag * 10 + d <= 9223372036854775808u64) by (nonlinear_arith)
            requires
                mag <= (9223372036854775808u64 - d) / 10,
                d <= 9,
        ;
        mag = mag * 10 + d;
        i += 1;
    }
    assert(body.take(i - start) =~= body);
    if neg {
        if mag == 9223372036854775808u64 {
            Some(i64::MIN)
        } else {
            Some(-(mag as i64))
        }
    } else {
        if mag > 9223372036854775807u64 {
            None
        } else {
            Some(mag as i64)
        }
    }
}

// ─────────────────────────────────────────────────────────────────────────────
// Display defaults and render hints carried by tags
// ─────────────────────────────────────────────────────────────────────────────

/// Some tag equals one of the candidates, ignoring ASCII case.
pub open spec fn has_tag_spec(tags: Seq<Seq<char>>, candidates: Seq<Seq<char>>) -> bool {
    exists|i: int, j: int|
        0 <= i < tags.len() && 0 <= j < candidates.len() && eq_ignore_case(
            #[trigger] tags[i],
            #[trigger] candidates[j],
        )
}

/// The views of the tags of a manifest.
pub open spec fn tags_view(m: &ToolManifest) -> Seq<Seq<char>> {
    m.tags@.map_values(|t: String| t@)
}

/// Whether the manifest has one of the candidate tags, ignoring ASCII case.
pub fn manifest_has_tag(manifest: &ToolManifest, tags: &Vec<&str>) -> (r: bool)
    ensures
        r == has_tag_spec(tags_view(manifest), tags@.map_values(|t: &str| t@)),
{
    let ghost tv = tags_view(manifest);
    let ghost cv = tags@.map_values(|t: &str| t@);
    let mut i: usize = 0;
    while i < manifest.tags.len()
        invariant
            i <= manifest.tags.len(),
            tv == tags_view(manifest),
            cv == tags@.map_values(|t: &str| t@),
            forall|a: int, b: int|
                0 <= a < i && 0 <= b < cv.len() ==> !eq_ignore_case(#[trigger] tv[a], #[trigger] cv[b]),
        decreases manifest.tags.len() - i,
    {
        let mut j: usize = 0;
        while j < tags.len()
            invariant
                i < manifest.tags.len(),
                j <= tags.len(),
                tv == tags_view(manifest),
                cv == tags@.map_values(|t: &str| t@),
                forall|b: int| 0 <= b < j ==> !eq_ignore_case(tv[i as int], #[trigger] cv[b]),
            decreases tags.len() - j,
        {
            assert(tv[i as int] == manifest.tags@[i as int]@);
            assert(cv[j as int] == tags@[j as int]@);
            if eq_ignore_ascii_case(manifest.tags[i].as_str(), tags[j]) {
                assert(eq_ignore_case(tv[i as int], cv[j as int]));
                return true;
            }
            j += 1;
        }
        i += 1;
    }
    false
}

/// The rank text a tag carries after one of the display-rank prefixes.
pub open spec fn rank_text(tag: Seq<char>) -> Option<Seq<char>> {
    let t = trim_spec(tag);
    if has_prefix(t, "display_rank:"@) {
        Some(t.subrange("display_rank:"@.len() as int, t.len() as int))
    } else if has_prefix(t, "ui_display_rank:"@) {
        Some(t.subrange("ui_display_rank:"@.len() as int, t.len() as int))
    } else if has_prefix(t, "ui:display_rank="@) {
        Some(t.subrange("ui:display_rank="@.len() as int, t.len() as int))
    } else {
        None
    }
}

/// The display rank a tag gives, if its rank text is an integer.
pub open spec fn tag_rank(tag: Seq<char>) -> Option<i64> {
    match rank_text(tag) {
        Some(x) => parse_i64_spec(trim_spec(x)),
        None => None,
    }
}

/// A sequence of digits has a non-negative value.
proof fn lemma_digits_value_nonneg(s: Seq<char>)
    requires
        all_digits(s),
    ensures
        digits_value(s) >= 0,
    decreases s.len(),
{
    if s.len() > 0 {
        assert(all_digits(s.drop_last())) by {
            assert forall|i: int| 0 <= i < s.drop_last().len() implies is_digit(#[trigger] s.drop_last()[i]) by {
                assert(s.drop_last()[i] == s[i]);
            }
        }
        lemma_digits_value_nonneg(s.drop_last());
        assert(is_digit(s[s.len() - 1]));
    }
}

/// The rank of a tag `p` + `digits`, for a display-rank prefix `p`.
proof fn lemma_prefixed_rank(p: Seq<char>, digits: Seq<char>)
    requires
        p.len() > 0,
        !crate::text::is_ws(p[0]),
        digits.len() > 0,
        all_digits(digits),
        digits_value(digits) <= i64::MAX,
        rank_text(p + digits) == Some(digits),
    ensures
        tag_rank(p + digits) == Some(digits_value(digits) as i64),
{
    lemma_digits_value_nonneg(digits);
    assert(is_digit(digits[0]));
    assert(is_digit(digits[digits.len() - 1]));
    assert(trim_spec(digits) == digits);
}

/// A tag `display_rank:<n>`, `ui_display_rank:<n>` or `ui:display_rank=<n>`
/// whose rank text `n` is decimal digits gives the rank they spell (when
/// it fits an `i64`); the three prefixes mean the same.
pub proof fn law_display_rank_tags(digits: Seq<char>)
    requires
        digits.len() > 0,
        all_digits(digits),
        digits_value(digits) <= i64::MAX,
    ensures
        tag_rank("display_rank:"@ + digits) == Some(digits_value(digits) as i64),
        tag_rank("ui_display_rank:"@ + digits) == Some(digits_value(digits) as i64),
        tag_rank("ui:display_rank="@ + digits) == Some(digits_value(digits) as i64),
{
    reveal_strlit("display_rank:");
    reveal_strlit("ui_display_rank:");
    reveal_strlit("ui:display_rank=");
    assert(is_digit(digits[digits.len() - 1]));
    let a = "display_rank:"@ + digits;
    let b = "ui_display_rank:"@ + digits;
    let c = "ui:display_rank="@ + digits;
    assert(trim_spec(a) == a);
    assert(trim_spec(b) == b);
    assert(trim_spec(c) == c);
    assert(a.subrange(0, 13) =~= "display_rank:"@);
    assert(a.subrange(13, a.len() as int) =~= digits);
    assert(rank_text(a) == Some(digits));
    assert(b.subrange(0, 13) != "display_rank:"@) by {
        assert(b.subrange(0, 13)[0] != "display_rank:"@[0]);
    }
    assert(b.subrange(0, 16) =~= "ui_display_rank:"@);
    assert(b.subrange(16, b.len() as int) =~= digits);
    assert(rank_text(b) == Some(digits));
    assert(c.subrange(0, 13) != "display_rank:"@) by {
        assert(c.subrange(0, 13)[0] != "display_rank:"@[0]);
    }
    assert(c.subrange(0, 16) != "ui_display_rank:"@) by {
        assert(c.subrange(0, 16)[2] != "ui_display_rank:"@[2]);
    }
    assert(c.subrange(0, 16) =~= "ui:display_rank="@);
    assert(c.subrange(16, c.len() as int) =~= digits);
    assert(rank_text(c) == Some(digits));
    lemma_prefixed_rank("display_rank:"@, digits);
    lemma_prefixed_rank("ui_display_rank:"@, digits);
    lemma_prefixed_rank("ui:display_rank="@, digits);
}

/// The tag gives a display rank.
pub open spec fn gives_rank() -> spec_fn(Seq<char>) -> bool {
    |t: Seq<char>| tag_rank(t) is Some
}

/// The display rank of the first tag that gives one.
pub open spec fn display_rank_spec(tags: Seq<Seq<char>>) -> Option<i64> {
    match crate::geopackage::first_where(tags, gives_rank()) {
        Some(i) => tag_rank(tags[i]),
        None => None,
    }
}

/// The default display rank of a tool is the rank its first rank-giving
/// tag gives: when some tag gives one, there is a tag at position `i`
/// giving that rank with no tag before it giving any; it is none exactly
/// when no tag gives a rank.
pub proof fn law_display_rank_first(tags: Seq<Seq<char>>)
    ensures
        display_rank_spec(tags) is None <==> forall|j: int| 0 <= j < tags.len() ==> #[trigger] tag_rank(tags[j]) is None,
        display_rank_spec(tags) matches Some(r) ==> exists|i: int|
            0 <= i < tags.len() && #[trigger] tag_rank(tags[i]) == Some(r) && forall|j: int|
                0 <= j < i ==> #[trigger] tag_rank(tags[j]) is None,
{
    crate::geopackage::lemma_first_where(tags, gives_rank());
    match crate::geopackage::first_where(tags, gives_rank()) {
        Some(i) => {
            assert(gives_rank()(tags[i]));
            assert forall|j: int| 0 <= j < i implies #[trigger] tag_rank(tags[j]) is None by {
                assert(!gives_rank()(tags[j]));
            }
        },
        None => {
            assert forall|j: int| 0 <= j < tags.len() implies #[trigger] tag_rank(tags[j]) is None by {
                assert(!gives_rank()(tags[j]));
            }
        },
    }
}

/// The display rank a tag gives.
fn tag_rank_exec(tag: &String) -> (r: Option<i64>)
    ensures
        r == tag_rank(tag@),
{
    let t = trim(tag.as_str());
    let text = match strip_prefix(t.as_str(), "display_rank:") {
        Some(x) => Some(x),
        None => match strip_prefix(t.as_str(), "ui_display_rank:") {
            Some(x) => Some(x),
            None => strip_prefix(t.as_str(), "ui:display_rank="),
        },
    };
    match text {
        Some(x) => {
            let tx = trim(x.as_str());
            parse_i64(tx.as_str())
        },
        None => None,
    }
}

/// The default display rank of a tool: that of its first tag carrying a
/// `display_rank:`, `ui_display_rank:` or `ui:display_rank=` integer.
pub fn manifest_display_default_rank(manifest: &ToolManifest) -> (r: Option<i64>)
    ensures
        r == display_rank_spec(tags_view(manifest)),
{
    let ghost tv = tags_view(manifest);
    proof {
        crate::geopackage::lemma_first_where(tv, gives_rank());
    }
    let mut i: usize = 0;
    while i < manifest.tags.len()
        invariant
            i <= manifest.tags.len(),
            tv == tags_view(manifest),
            forall|a: int| 0 <= a < i ==> !gives_rank()(#[trigger] tv[a]),
            match crate::geopackage::first_where(tv, gives_rank()) {
                Some(k) => 0 <= k < tv.len() && gives_rank()(tv[k]) && forall|a: int|
                    0 <= a < k ==> !gives_rank()(tv[a]),
                None => forall|a: int| 0 <= a < tv.len() ==> !gives_rank()(tv[a]),
            },
        decreases manifest.tags.len() - i,
    {
        assert(tv[i as int] == manifest.tags@[i as int]@);
        match tag_rank_exec(&manifest.tags[i]) {
            Some(n) => {
                assert(gives_rank()(tv[i as int]));
                assert(crate::geopackage::first_where(tv, gives_rank()) == Some(i as int));
                return Some(n);
            },
            None => {},
        }
        i += 1;
    }
    None
}

/// The tags that hide a tool by default.
pub open spec fn hidden_tags() -> Seq<Seq<char>> {
    seq!["default_hidden"@, "ui_default_hidden"@, "ui:hidden_by_default"@]
}

/// The tags that make a tool a favorite by default.
pub open spec fn favorite_tags() -> Seq<Seq<char>> {
    seq!["default_favorite"@, "ui_default_favorite"@, "ui:favorite_by_default"@]
}

/// Whether a tool is visible and a favorite by default, and its default
/// display rank.
pub fn manifest_display_defaults(manifest: &ToolManifest) -> (r: (bool, bool, Option<i64>))
    ensures
        r.0 == !has_tag_spec(tags_view(manifest), hidden_tags()),
        r.1 == has_tag_spec(tags_view(manifest), favorite_tags()),
        r.2 == display_rank_spec(tags_view(manifest)),
{
    let hidden = vec!["default_hidden", "ui_default_hidden", "ui:hidden_by_default"];
    assert(hidden@.map_values(|t: &str| t@) =~= hidden_tags());
    let favorite = vec!["default_favorite", "ui_default_favorite", "ui:favorite_by_default"];
    assert(favorite@.map_values(|t: &str| t@) =~= favorite_tags());
    let default_hidden = manifest_has_tag(manifest, &hidden);
    let default_favorite = manifest_has_tag(manifest, &favorite);
    let display_rank = manifest_display_default_rank(manifest);
    (!default_hidden, default_favorite, display_rank)
}

/// The render hint a tag carries: after `render_hint:`, either
/// `categorical`/`categorical_raster` (the raster is categorical) or
/// `target=hint`, both non-blank.
pub open spec fn hint_of(tag: Seq<char>) -> Option<(Seq<char>, Seq<char>)> {
    let t = trim_spec(tag);
    if !has_prefix(t, "render_hint:"@) {
        None
    } else {
        let p = trim_spec(t.subrange("render_hint:"@.len() as int, t.len() as int));
        if p.len() == 0 {
            None
        } else if eq_ignore_case(p, "categorical"@) || eq_ignore_case(p, "categorical_raster"@) {
            Some(("raster"@, "categorical"@))
        } else {
            match crate::text::first_index_of(p, '=') {
                Some(i) => {
                    let a = trim_spec(p.subrange(0, i));
                    let b = trim_spec(p.subrange(i + 1, p.len() as int));
                    if a.len() == 0 || b.len() == 0 {
                        None
                    } else {
                        Some((a, b))
                    }
                },
                None => None,
            }
        }
    }
}

/// The render hints of a list of tags, later tags overriding earlier ones
/// for the same target.
pub open spec fn hints_spec(tags: Seq<Seq<char>>) -> Seq<(Seq<char>, Seq<char>)>
    decreases tags.len(),
{
    if tags.len() == 0 {
        Seq::empty()
    } else {
        let p = hints_spec(tags.drop_last());
        match hint_of(tags.last()) {
            Some((k, v)) => assoc_insert(p, k, v),
            None => p,
        }
    }
}

/// The render hint a tag carries.
fn hint_of_exec(tag: &String) -> (r: Option<(String, String)>)
    ensures
        match r {
            Some((k, v)) => hint_of(tag@) == Some((k@, v@)),
            None => hint_of(tag@) is None,
        },
{
    let t = trim(tag.as_str());
    let payload = match strip_prefix(t.as_str(), "render_hint:") {
        Some(p) => p,
        None => {
            return None;
        },
    };
    let p = trim(payload.as_str());
    let pv = chars_of(p.as_str());
    if pv.len() == 0 {
        return None;
    }
    if eq_ignore_ascii_case(p.as_str(), "categorical") || eq_ignore_ascii_case(
        p.as_str(),
        "categorical_raster",
    ) {
        return Some((to_owned_string("raster"), to_owned_string("categorical")));
    }
    match crate::text::find_char(&pv, '=') {
        Some(i) => {
            let a0 = crate::text::string_from_range(&pv, 0, i);
            let b0 = crate::text::string_from_range(&pv, i + 1, pv.len());
            let a = trim(a0.as_str());
            let b = trim(b0.as_str());
            if chars_of(a.as_str()).len() == 0 || chars_of(b.as_str()).len() == 0 {
                None
            } else {
                Some((a, b))
            }
        },
        None => None,
    }
}

/// The render hints of a tool's tags, by target (see [`hints_spec`]).
pub fn manifest_render_hints(manifest: &ToolManifest) -> (r: Vec<(String, String)>)
    ensures
        text_pairs_view(r@) == hints_spec(tags_view(manifest)),
{
    let ghost tv = tags_view(manifest);
    let mut hints: Vec<(String, String)> = Vec::new();
    let mut i: usize = 0;
    assert(text_pairs_view(hints@) =~= hints_spec(tv.take(0)));
    while i < manifest.tags.len()
        invariant
            i <= manifest.tags.len(),
            tv == tags_view(manifest),
            text_pairs_view(hints@) == hints_spec(tv.take(i as int)),
        decreases manifest.tags.len() - i,
    {
        assert(tv[i as int] == manifest.tags@[i as int]@);
        assert(tv.take(i + 1).drop_last() =~= tv.take(i as int));
        assert(tv.take(i + 1).last() == tv[i as int]);
        match hint_of_exec(&manifest.tags[i]) {
            Some((k, v)) => {
                text_pair_set(&mut hints, k, v);
            },
            None => {},
        }
        i += 1;
    }
    assert(tv.take(i as int) =~= tv);
    hints
}


// ─────────────────────────────────────────────────────────────────────────────
// Parameter order
// ─────────────────────────────────────────────────────────────────────────────

/// The parameter order some flow tools keep from earlier Whitebox releases:
/// the output path right after the primary input.
pub open spec fn legacy_order_spec(tool_id: Seq<char>) -> Option<Seq<Seq<char>>> {
    if tool_id == "d8_pointer"@ {
        Some(seq!["dem"@, "output"@, "esri_pntr"@])
    } else if tool_id == "d8_flow_accum"@ {
        Some(seq!["input"@, "output"@, "out_type"@, "log_transform"@, "clip"@, "input_is_pointer"@, "esri_pntr"@])
    } else if tool_id == "dinf_pointer"@ {
        Some(seq!["dem"@, "output"@])
    } else if tool_id == "dinf_flow_accum"@ {
        Some(seq!["input"@, "output"@, "out_type"@, "convergence_threshold"@, "log_transform"@, "clip"@, "input_is_pointer"@])
    } else if tool_id == "fd8_pointer"@ {
        Some(seq!["dem"@, "output"@])
    } else if tool_id == "fd8_flow_accum"@ {
        Some(seq!["dem"@, "output"@, "out_type"@, "exponent"@, "convergence_threshold"@, "threshold"@, "log_transform"@, "clip"@])
    } else if tool_id == "rho8_pointer"@ {
        Some(seq!["dem"@, "output"@, "esri_pntr"@])
    } else if tool_id == "rho8_flow_accum"@ {
        Some(seq!["input"@, "output"@, "out_type"@, "log_transform"@, "clip"@, "input_is_pointer"@, "esri_pntr"@])
    } else if tool_id == "mdinf_flow_accum"@ {
        Some(seq!["dem"@, "output"@, "out_type"@, "exponent"@, "convergence_threshold"@, "log_transform"@, "clip"@])
    } else if tool_id == "qin_flow_accumulation"@ {
        Some(seq!["dem"@, "output"@, "out_type"@, "exponent"@, "max_slope"@, "convergence_threshold"@, "log_transform"@, "clip"@])
    } else if tool_id == "quinn_flow_accumulation"@ {
        Some(seq!["dem"@, "output"@, "out_type"@, "exponent"@, "convergence_threshold"@, "log_transform"@, "clip"@])
    } else if tool_id == "minimal_dispersion_flow_algorithm"@ {
        Some(seq!["dem"@, "output"@, "flow_dir_output"@, "out_type"@, "path_corrected_direction_preference"@, "log_transform"@, "clip"@, "esri_pntr"@, "debug_stats"@])
    } else {
        None
    }
}

/// The parameter order some flow tools keep (see [`legacy_order_spec`]).
pub fn legacy_param_order_override(tool_id: &str) -> (r: Option<Vec<&'static str>>)
    ensures
        match r {
            Some(v) => legacy_order_spec(tool_id@) == Some(v@.map_values(|s: &str| s@)),
            None => legacy_order_spec(tool_id@) is None,
        },
{
    let v: Vec<&'static str> = if str_eq(tool_id, "d8_pointer") {
        vec!["dem", "output", "esri_pntr"]
    } else if str_eq(tool_id, "d8_flow_accum") {
        vec!["input", "output", "out_type", "log_transform", "clip", "input_is_pointer", "esri_pntr"]
    } else if str_eq(tool_id, "dinf_pointer") {
        vec!["dem", "output"]
    } else if str_eq(tool_id, "dinf_flow_accum") {
        vec!["input", "output", "out_type", "convergence_threshold", "log_transform", "clip", "input_is_pointer"]
    } else if str_eq(tool_id, "fd8_pointer") {
        vec!["dem", "output"]
    } else if str_eq(tool_id, "fd8_flow_accum") {
        vec!["dem", "output", "out_type", "exponent", "convergence_threshold", "threshold", "log_transform", "clip"]
    } else if str_eq(tool_id, "rho8_pointer") {
        vec!["dem", "output", "esri_pntr"]
    } else if str_eq(tool_id, "rho8_flow_accum") {
        vec!["input", "output", "out_type", "log_transform", "clip", "input_is_pointer", "esri_pntr"]
    } else if str_eq(tool_id, "mdinf_flow_accum") {
        vec!["dem", "output", "out_type", "exponent", "convergence_threshold", "log_transform", "clip"]
    } else if str_eq(tool_id, "qin_flow_accumulation") {
        vec!["dem", "output", "out_type", "exponent", "max_slope", "convergence_threshold", "log_transform", "clip"]
    } else if str_eq(tool_id, "quinn_flow_accumulation") {
        vec!["dem", "output", "out_type", "exponent", "convergence_threshold", "log_transform", "clip"]
    } else if str_eq(tool_id, "minimal_dispersion_flow_algorithm") {
        vec!["dem", "output", "flow_dir_output", "out_type", "path_corrected_direction_preference", "log_transform", "clip", "esri_pntr", "debug_stats"]
    } else {
        return None;
    };
    assert(legacy_order_spec(tool_id@) == Some(v@.map_values(|s: &str| s@)));
    Some(v)
}

/// Some name of `out` equals `n`, ignoring ASCII case.
pub open spec fn contains_ci(out: Seq<Seq<char>>, n: Seq<char>) -> bool {
    exists|j: int| 0 <= j < out.len() && eq_ignore_case(#[trigger] out[j], n)
}

/// `out` with `n` appended unless it has that name already, in any case.
pub open spec fn add_unseen(out: Seq<Seq<char>>, n: Seq<char>) -> Seq<Seq<char>> {
    if contains_ci(out, n) {
        out
    } else {
        out.push(n)
    }
}

/// The names matching the preferred ones, in the preferred order: for each
/// preferred name, the first name equal to it ignoring ASCII case.
pub open spec fn place_preferred(pref: Seq<Seq<char>>, names: Seq<Seq<char>>) -> Seq<Seq<char>>
    decreases pref.len(),
{
    if pref.len() == 0 {
        Seq::empty()
    } else {
        let out = place_preferred(pref.drop_last(), names);
        match crate::geopackage::first_ci(names, pref.last()) {
            Some(i) => add_unseen(out, names[i]),
            None => out,
        }
    }
}

/// `out` followed by the names it does not have yet, in order.
pub open spec fn place_rest(out: Seq<Seq<char>>, names: Seq<Seq<char>>) -> Seq<Seq<char>>
    decreases names.len(),
{
    if names.len() == 0 {
        out
    } else {
        add_unseen(place_rest(out, names.drop_last()), names.last())
    }
}

/// The parameter names in display order: for a tool with a legacy order,
/// the matching names in that order, then the others, each name once in
/// any case; for any other tool, the names as given.
pub open spec fn reorder_spec(tool_id: Seq<char>, names: Seq<Seq<char>>) -> Seq<Seq<char>> {
    match legacy_order_spec(tool_id) {
        Some(p) => place_rest(place_preferred(p, names), names),
        None => names,
    }
}

/// Whether some name of `out` equals `n`, ignoring ASCII case.
fn contains_ci_exec(out: &Vec<String>, n: &str) -> (r: bool)
    ensures
        r == contains_ci(crate::db::strings_view(out@), n@),
{
    let ghost ov = crate::db::strings_view(out@);
    let mut j: usize = 0;
    while j < out.len()
        invariant
            j <= out.len(),
            ov == crate::db::strings_view(out@),
            forall|k: int| 0 <= k < j ==> !eq_ignore_case(#[trigger] ov[k], n@),
        decreases out.len() - j,
    {
        assert(ov[j as int] == out@[j as int]@);
        if eq_ignore_ascii_case(out[j].as_str(), n) {
            return true;
        }
        j += 1;
    }
    false
}

/// Appends `n` unless `out` has that name already, in any case.
fn push_unseen(out: &mut Vec<String>, n: &String)
    ensures
        crate::db::strings_view(final(out)@) == add_unseen(crate::db::strings_view(old(out)@), n@),
{
    if !contains_ci_exec(out, n.as_str()) {
        let ghost o = crate::db::strings_view(out@);
        out.push(n.clone());
        assert(crate::db::strings_view(out@) =~= o.push(n@));
    }
}

/// The first name equal to `wanted`, ignoring ASCII case.
fn find_ci(names: &Vec<String>, wanted: &str) -> (r: Option<usize>)
    ensures
        match r {
            Some(i) => crate::geopackage::first_ci(crate::db::strings_view(names@), wanted@) == Some(i as int) && i < names.len(),
            None => crate::geopackage::first_ci(crate::db::strings_view(names@), wanted@) is None,
        },
{
    let ghost nv = crate::db::strings_view(names@);
    proof {
        crate::geopackage::lemma_first_where(nv, crate::geopackage::same_name(wanted@));
    }
    let mut k: usize = 0;
    while k < names.len()
        invariant
            k <= names.len(),
            nv == crate::db::strings_view(names@),
            forall|i: int| 0 <= i < k ==> !crate::geopackage::same_name(wanted@)(#[trigger] nv[i]),
            match crate::geopackage::first_where(nv, crate::geopackage::same_name(wanted@)) {
                Some(j) => 0 <= j < nv.len() && crate::geopackage::same_name(wanted@)(nv[j]) && forall|i: int|
                    0 <= i < j ==> !crate::geopackage::same_name(wanted@)(nv[i]),
                None => forall|i: int| 0 <= i < nv.len() ==> !crate::geopackage::same_name(wanted@)(nv[i]),
            },
        decreases names.len() - k,
    {
        assert(nv[k as int] == names@[k as int]@);
        if eq_ignore_ascii_case(names[k].as_str(), wanted) {
            assert(crate::geopackage::same_name(wanted@)(nv[k as int]));
            return Some(k);
        }
        k += 1;
    }
    None
}

/// The parameter names in display order (see [`reorder_spec`]).
pub fn reorder_param_names_logical(tool_id: &str, names: &Vec<String>) -> (r: Vec<String>)
    ensures
        crate::db::strings_view(r@) == reorder_spec(tool_id@, crate::db::strings_view(names@)),
{
    let ghost nv = crate::db::strings_view(names@);
    let preferred = match legacy_param_order_override(tool_id) {
        Some(p) => p,
        None => {
            return crate::db::copy_strings(names);
        },
    };
    let ghost pv = preferred@.map_values(|s: &str| s@);
    let mut out: Vec<String> = Vec::new();
    let mut i: usize = 0;
    assert(crate::db::strings_view(out@) =~= place_preferred(pv.take(0), nv));
    while i < preferred.len()
        invariant
            i <= preferred.len(),
            nv == crate::db::strings_view(names@),
            pv == preferred@.map_values(|s: &str| s@),
            crate::db::strings_view(out@) == place_preferred(pv.take(i as int), nv),
        decreases preferred.len() - i,
    {
        assert(pv.take(i + 1).drop_last() =~= pv.take(i as int));
        assert(pv.take(i + 1).last() == preferred@[i as int]@);
        match find_ci(names, preferred[i]) {
            Some(k) => {
                assert(nv[k as int] == names@[k as int]@);
                push_unseen(&mut out, &names[k]);
            },
            None => {},
        }
        i += 1;
    }
    assert(pv.take(i as int) =~= pv);
    let ghost placed = crate::db::strings_view(out@);
    let mut k: usize = 0;
    assert(nv.take(0) =~= Seq::<Seq<char>>::empty());
    while k < names.len()
        invariant
            k <= names.len(),
            nv == crate::db::strings_view(names@),
            crate::db::strings_view(out@) == place_rest(placed, nv.take(k as int)),
        decreases names.len() - k,
    {
        assert(nv.take(k + 1).drop_last() =~= nv.take(k as int));
        assert(nv.take(k + 1).last() == names@[k as int]@);
        push_unseen(&mut out, &names[k]);
        k += 1;
    }
    assert(nv.take(k as int) =~= nv);
    out
}

/// Adding names only when unseen keeps the names distinct, ignoring case.
proof fn lemma_add_unseen_distinct(out: Seq<Seq<char>>, n: Seq<char>)
    requires
        crate::db::distinct_ignore_case(out),
    ensures
        crate::db::distinct_ignore_case(add_unseen(out, n)),
        contains_ci(add_unseen(out, n), n),
        forall|m: Seq<char>| contains_ci(out, m) ==> contains_ci(add_unseen(out, n), m),
{
    let e = add_unseen(out, n);
    if !contains_ci(out, n) {
        assert forall|i: int, j: int|
            0 <= i < e.len() && 0 <= j < e.len() && i != j implies !eq_ignore_case(
            #[trigger] e[i],
            #[trigger] e[j],
        ) by {
            if i == out.len() {
                assert(e[j] == out[j]);
                if eq_ignore_case(e[i], e[j]) {
                    assert(eq_ignore_case(out[j], n));
                }
            } else if j == out.len() {
                assert(e[i] == out[i]);
                if eq_ignore_case(e[i], e[j]) {
                    assert(eq_ignore_case(out[i], n));
                }
            } else {
                assert(e[i] == out[i] && e[j] == out[j]);
            }
        }
        assert(eq_ignore_case(e[out.len() as int], n));
        assert forall|m: Seq<char>| contains_ci(out, m) implies contains_ci(e, m) by {
            let j = choose|j: int| 0 <= j < out.len() && eq_ignore_case(#[trigger] out[j], m);
            assert(e[j] == out[j]);
        }
    } else {
        let j = choose|j: int| 0 <= j < out.len() && eq_ignore_case(#[trigger] out[j], n);
    }
}

/// Placing the rest keeps the names distinct and adds every name.
proof fn lemma_place_rest(out: Seq<Seq<char>>, names: Seq<Seq<char>>)
    requires
        crate::db::distinct_ignore_case(out),
    ensures
        crate::db::distinct_ignore_case(place_rest(out, names)),
        forall|i: int| 0 <= i < names.len() ==> contains_ci(place_rest(out, names), #[trigger] names[i]),
        forall|m: Seq<char>| contains_ci(out, m) ==> contains_ci(place_rest(out, names), m),
    decreases names.len(),
{
    if names.len() > 0 {
        let p = place_rest(out, names.drop_last());
        lemma_place_rest(out, names.drop_last());
        lemma_add_unseen_distinct(p, names.last());
        assert forall|i: int| 0 <= i < names.len() implies contains_ci(
            place_rest(out, names),
            #[trigger] names[i],
        ) by {
            if i < names.len() - 1 {
                assert(names.drop_last()[i] == names[i]);
            }
        }
    }
}

/// Placing the preferred names keeps them distinct.
proof fn lemma_place_preferred(pref: Seq<Seq<char>>, names: Seq<Seq<char>>)
    ensures
        crate::db::distinct_ignore_case(place_preferred(pref, names)),
        forall|j: int|
            0 <= j < place_preferred(pref, names).len() ==> names.contains(
                #[trigger] place_preferred(pref, names)[j],
            ),
    decreases pref.len(),
{
    if pref.len() > 0 {
        let out = place_preferred(pref.drop_last(), names);
        lemma_place_preferred(pref.drop_last(), names);
        match crate::geopackage::first_ci(names, pref.last()) {
            Some(i) => {
                crate::geopackage::lemma_first_where(names, crate::geopackage::same_name(pref.last()));
                lemma_add_unseen_distinct(out, names[i]);
                let e = add_unseen(out, names[i]);
                assert forall|j: int| 0 <= j < e.len() implies names.contains(#[trigger] e[j]) by {
                    if j < out.len() {
                        assert(e[j] == out[j]);
                    } else {
                        assert(e[j] == names[i]);
                    }
                }
            },
            None => {},
        }
    } else {
        assert(crate::db::distinct_ignore_case(Seq::<Seq<char>>::empty()));
    }
}

/// Every name `place_rest` adds comes from the list; the names of `out`
/// stay.
proof fn lemma_place_rest_from_weak(out: Seq<Seq<char>>, names: Seq<Seq<char>>)
    ensures
        forall|j: int|
            0 <= j < place_rest(out, names).len() ==> (j < out.len() && #[trigger] place_rest(out, names)[j]
                == out[j]) || (j >= out.len() && names.contains(place_rest(out, names)[j])),
        place_rest(out, names).len() >= out.len(),
    decreases names.len(),
{
    if names.len() > 0 {
        let p = place_rest(out, names.drop_last());
        lemma_place_rest_from_weak(out, names.drop_last());
        let e = add_unseen(p, names.last());
        assert forall|j: int| 0 <= j < e.len() implies (j < out.len() && #[trigger] e[j] == out[j]) || (
        j >= out.len() && names.contains(e[j])) by {
            if j < p.len() {
                assert(e[j] == p[j]);
                if j >= out.len() {
                    let k = choose|k: int| 0 <= k < names.drop_last().len() && names.drop_last()[k] == p[j];
                    assert(names[k] == p[j]);
                }
            } else {
                assert(e[j] == names.last());
                assert(names[names.len() - 1] == names.last());
            }
        }
    }
}

/// For a tool with a legacy order, the reordered names differ pairwise
/// ignoring ASCII case, each given name is among them in some case, and
/// each of them is one of the given names; for any other tool they are
/// the given names.
pub proof fn law_reorder_param_names(tool_id: Seq<char>, names: Seq<Seq<char>>)
    ensures
        legacy_order_spec(tool_id) is None ==> reorder_spec(tool_id, names) == names,
        legacy_order_spec(tool_id) is Some ==> {
            let r = reorder_spec(tool_id, names);
            &&& crate::db::distinct_ignore_case(r)
            &&& forall|i: int| 0 <= i < names.len() ==> contains_ci(r, #[trigger] names[i])
            &&& forall|j: int| 0 <= j < r.len() ==> names.contains(#[trigger] r[j])
        },
{
    match legacy_order_spec(tool_id) {
        Some(p) => {
            lemma_place_preferred(p, names);
            let out = place_preferred(p, names);
            lemma_place_rest(out, names);
            lemma_place_rest_from_weak(out, names);
        },
        None => {},
    }
}


// ─────────────────────────────────────────────────────────────────────────────
// Sensor bundle colour helpers
// ─────────────────────────────────────────────────────────────────────────────

/// The manifest of a colour-composite helper tool.
pub open spec fn colour_helper_spec(id: Seq<char>, display: Seq<char>, summary: Seq<char>) -> crate::tool::ToolManifestV {
    crate::tool::ToolManifestV {
        id,
        display_name: display,
        summary,
        category: crate::tool::ToolCategory::Raster,
        license_tier: LicenseTier::Open,
        params: seq![
            crate::tool::ParamV {
                name: "bundle_root"@,
                description: "Root path of the input sensor bundle."@,
                required: true,
            },
            crate::tool::ParamV { name: "output_path"@, description: "Output raster path."@, required: false },
        ],
        defaults: Seq::empty(),
        examples: Seq::empty(),
        tags: seq!["remote_sensing"@, "enhancement"@, "sensor_bundle"@, "colour_composite"@],
        stability: crate::tool::ToolStability::Stable,
    }
}

/// The two colour-composite helpers every catalog lists.
pub open spec fn colour_helpers_spec() -> Seq<crate::tool::ToolManifestV> {
    seq![
        colour_helper_spec(
            "true_colour_composite"@,
            "True Colour Composite"@,
            "Build a true-colour (RGB) composite raster from a supported optical sensor bundle."@,
        ),
        colour_helper_spec(
            "false_colour_composite"@,
            "False Colour Composite"@,
            "Build a false-colour (NIR/Red/Green) composite raster from a supported optical sensor bundle."@,
        ),
    ]
}

fn colour_helper(id: &str, display: &str, summary: &str) -> (r: ToolManifest)
    ensures
        r@ == colour_helper_spec(id@, display@, summary@),
{
    let mut params: Vec<crate::tool::ToolParamDescriptor> = Vec::new();
    params.push(
        crate::tool::ToolParamDescriptor::new(
            "bundle_root",
            "Root path of the input sensor bundle.",
            true,
        ),
    );
    params.push(crate::tool::ToolParamDescriptor::new("output_path", "Output raster path.", false));
    let mut tags: Vec<String> = Vec::new();
    tags.push(to_owned_string("remote_sensing"));
    tags.push(to_owned_string("enhancement"));
    tags.push(to_owned_string("sensor_bundle"));
    tags.push(to_owned_string("colour_composite"));
    let r = ToolManifest {
        id: to_owned_string(id),
        display_name: to_owned_string(display),
        summary: to_owned_string(summary),
        category: crate::tool::ToolCategory::Raster,
        license_tier: LicenseTier::Open,
        params,
        defaults: crate::tool::ToolArgs::new(),
        examples: Vec::new(),
        tags,
        stability: crate::tool::ToolStability::Stable,
    };
    assert(r@.params =~= colour_helper_spec(id@, display@, summary@).params);
    assert(r@.examples =~= Seq::<crate::tool::ToolExampleV>::empty());
    assert(r@.tags =~= colour_helper_spec(id@, display@, summary@).tags);
    r
}

/// The colour-composite helper tools that build RGB composites from
/// optical sensor bundles.
pub fn sensor_bundle_colour_helper_manifests() -> (r: Vec<ToolManifest>)
    ensures
        r@.map_values(|m: ToolManifest| m@) == colour_helpers_spec(),
{
    let mut out: Vec<ToolManifest> = Vec::new();
    out.push(
        colour_helper(
            "true_colour_composite",
            "True Colour Composite",
            "Build a true-colour (RGB) composite raster from a supported optical sensor bundle.",
        ),
    );
    out.push(
        colour_helper(
            "false_colour_composite",
            "False Colour Composite",
            "Build a false-colour (NIR/Red/Green) composite raster from a supported optical sensor bundle.",
        ),
    );
    assert(out@.map_values(|m: ToolManifest| m@) =~= colour_helpers_spec());
    out
}

/// The ids of a list of manifests.
pub open spec fn manifest_ids(ms: Seq<crate::tool::ToolManifestV>) -> Seq<Seq<char>> {
    ms.map_values(|m: crate::tool::ToolManifestV| m.id)
}

/// The manifests with each helper appended whose id none of them has.
pub open spec fn append_helpers_spec(ms: Seq<crate::tool::ToolManifestV>, helpers: Seq<crate::tool::ToolManifestV>) -> Seq<
    crate::tool::ToolManifestV,
>
    decreases helpers.len(),
{
    if helpers.len() == 0 {
        ms
    } else {
        let p = append_helpers_spec(ms, helpers.drop_last());
        if manifest_ids(ms).contains(helpers.last().id) {
            p
        } else {
            p.push(helpers.last())
        }
    }
}

/// Whether one of the manifests has the id `id`.
fn has_manifest_id(ms: &Vec<ToolManifest>, n: usize, id: &String) -> (r: bool)
    requires
        n <= ms.len(),
    ensures
        r == manifest_ids(ms@.map_values(|m: ToolManifest| m@).take(n as int)).contains(id@),
{
    let ghost ids = manifest_ids(ms@.map_values(|m: ToolManifest| m@).take(n as int));
    let mut i: usize = 0;
    while i < n
        invariant
            i <= n <= ms.len(),
            ids == manifest_ids(ms@.map_values(|m: ToolManifest| m@).take(n as int)),
            forall|k: int| 0 <= k < i ==> ids[k] != id@,
        decreases n - i,
    {
        assert(ids[i as int] == ms@[i as int].id@);
        if str_eq(ms[i].id.as_str(), id.as_str()) {
            return true;
        }
        i += 1;
    }
    false
}

/// Appends the colour-composite helpers whose ids the list does not have.
pub fn append_sensor_bundle_colour_helper_manifests(manifests: &mut Vec<ToolManifest>)
    ensures
        final(manifests)@.map_values(|m: ToolManifest| m@) == append_helpers_spec(
            old(manifests)@.map_values(|m: ToolManifest| m@),
            colour_helpers_spec(),
        ),
{
    let ghost o = manifests@.map_values(|m: ToolManifest| m@);
    let n = manifests.len();
    let helpers = sensor_bundle_colour_helper_manifests();
    let ghost hv = helpers@.map_values(|m: ToolManifest| m@);
    let mut rest = helpers;
    assert(hv.len() == 2);
    assert(rest@.len() == 2);
    assert(hv.subrange(0, 2) =~= hv);
    assert(o.take(n as int) =~= o);
    assert(hv.take(0) =~= Seq::<crate::tool::ToolManifestV>::empty());
    // Walk the helpers in order, appending the new ones.
    let mut k: usize = 0;
    while rest.len() > 0
        invariant
            k + rest.len() == 2,
            hv == colour_helpers_spec(),
            rest@.map_values(|m: ToolManifest| m@) == hv.subrange(k as int, 2),
            n <= manifests.len(),
            manifests@.map_values(|m: ToolManifest| m@).take(n as int) == o,
            manifests@.map_values(|m: ToolManifest| m@) == append_helpers_spec(o, hv.take(k as int)),
        decreases rest.len(),
    {
        let ghost prev = rest@;
        assert(prev.map_values(|m: ToolManifest| m@)[0] == hv.subrange(k as int, 2)[0]);
        let h = rest.remove(0);
        assert(h@ == hv[k as int]);
        assert(rest@ =~= prev.subrange(1, prev.len() as int));
        let present = has_manifest_id(manifests, n, &h.id);
        assert(hv.take(k + 1).drop_last() =~= hv.take(k as int));
        assert(hv.take(k + 1).last() == hv[k as int]);
        assert forall|j: int| 0 <= j < rest@.len() implies #[trigger] rest@[j]@ == hv[k + 1 + j] by {
            assert(rest@[j] == prev[j + 1]);
            assert(prev.map_values(|m: ToolManifest| m@)[j + 1] == hv.subrange(k as int, 2)[j + 1]);
        }
        assert(rest@.map_values(|m: ToolManifest| m@) =~= hv.subrange(k + 1, 2));
        if !present {
            let ghost before = manifests@.map_values(|m: ToolManifest| m@);
            manifests.push(h);
            assert(manifests@.map_values(|m: ToolManifest| m@) =~= before.push(hv[k as int]));
            assert(manifests@.map_values(|m: ToolManifest| m@).take(n as int) =~= before.take(n as int));
        }
        k += 1;
    }
    assert(hv.take(2) =~= hv);
}


// ─────────────────────────────────────────────────────────────────────────────
// Sorted name sets
// ─────────────────────────────────────────────────────────────────────────────

/// The names in strictly ascending order.
pub open spec fn sorted_strict(s: Seq<Seq<char>>) -> bool {
    forall|i: int, j: int| 0 <= i < j < s.len() ==> crate::text::seq_lt(#[trigger] s[i], #[trigger] s[j])
}

/// `x` put in its place in `s`: passed over the names before it, kept out
/// when it is there already.
pub open spec fn insert_sorted(s: Seq<Seq<char>>, x: Seq<char>) -> Seq<Seq<char>>
    decreases s.len(),
{
    if s.len() == 0 {
        seq![x]
    } else if s[0] == x {
        s
    } else if crate::text::seq_lt(x, s[0]) {
        seq![x] + s
    } else {
        seq![s[0]] + insert_sorted(s.drop_first(), x)
    }
}

/// Inserting into a sorted list keeps it sorted, and adds exactly `x`.
#[verifier::spinoff_prover]
pub proof fn law_insert_sorted(s: Seq<Seq<char>>, x: Seq<char>)
    requires
        sorted_strict(s),
    ensures
        sorted_strict(insert_sorted(s, x)),
        insert_sorted(s, x).to_set() == s.to_set().insert(x),
    decreases s.len(),
{
    let r = insert_sorted(s, x);
    if s.len() == 0 {
        assert(r.to_set() =~= s.to_set().insert(x)) by {
            assert forall|y: Seq<char>| r.to_set().contains(y) <==> s.to_set().insert(x).contains(y) by {
                if y == x {
                    assert(r[0] == x);
                }
            }
        }
    } else if s[0] == x {
        assert(s.to_set().contains(x));
        assert(r.to_set() =~= s.to_set().insert(x));
    } else if crate::text::seq_lt(x, s[0]) {
        assert forall|i: int, j: int| 0 <= i < j < r.len() implies crate::text::seq_lt(
            #[trigger] r[i],
            #[trigger] r[j],
        ) by {
            if i == 0 {
                if j > 1 {
                    assert(crate::text::seq_lt(s[0], s[j - 1]));
                    crate::text::lemma_lt_trans(x, s[0], s[j - 1]);
                }
            } else {
                assert(r[i] == s[i - 1] && r[j] == s[j - 1]);
            }
        }
        assert forall|y: Seq<char>| r.to_set().contains(y) <==> s.to_set().insert(x).contains(y) by {
            if r.to_set().contains(y) {
                let k = choose|k: int| 0 <= k < r.len() && r[k] == y;
                if k > 0 {
                    assert(s[k - 1] == y);
                }
            }
            if s.to_set().contains(y) {
                let k = choose|k: int| 0 <= k < s.len() && s[k] == y;
                assert(r[k + 1] == y);
            }
            if y == x {
                assert(r[0] == x);
            }
        }
        assert(r.to_set() =~= s.to_set().insert(x));
    } else {
        let t = s.drop_first();
        assert(sorted_strict(t)) by {
            assert forall|i: int, j: int| 0 <= i < j < t.len() implies crate::text::seq_lt(
                #[trigger] t[i],
                #[trigger] t[j],
            ) by {
                assert(t[i] == s[i + 1] && t[j] == s[j + 1]);
            }
        }
        law_insert_sorted(t, x);
        let rt = insert_sorted(t, x);
        crate::text::lemma_lt_total(x, s[0]);
        assert(crate::text::seq_lt(s[0], x));
        assert forall|i: int, j: int| 0 <= i < j < r.len() implies crate::text::seq_lt(
            #[trigger] r[i],
            #[trigger] r[j],
        ) by {
            if i == 0 {
                let y = rt[j - 1];
                assert(r[j] == y);
                assert(rt.to_set().contains(y));
                if y == x {
                } else {
                    assert(t.to_set().contains(y));
                    let k = choose|k: int| 0 <= k < t.len() && t[k] == y;
                    assert(s[k + 1] == y);
                }
            } else {
                assert(r[i] == rt[i - 1] && r[j] == rt[j - 1]);
            }
        }
        assert forall|y: Seq<char>| r.to_set().contains(y) <==> s.to_set().insert(x).contains(y) by {
            if r.to_set().contains(y) {
                let k = choose|k: int| 0 <= k < r.len() && r[k] == y;
                if k > 0 {
                    assert(rt[k - 1] == y);
                    assert(rt.to_set().contains(y));
                    if y != x {
                        assert(t.to_set().contains(y));
                        let m = choose|m: int| 0 <= m < t.len() && t[m] == y;
                        assert(s[m + 1] == y);
                    }
                }
            }
            if s.to_set().contains(y) {
                let k = choose|k: int| 0 <= k < s.len() && s[k] == y;
                if k > 0 {
                    assert(t[k - 1] == y);
                    assert(t.to_set().contains(y));
                    assert(rt.to_set().contains(y));
                    let m = choose|m: int| 0 <= m < rt.len() && rt[m] == y;
                    assert(r[m + 1] == y);
                }
            }
            if y == x {
                assert(rt.to_set().contains(x));
                let m = choose|m: int| 0 <= m < rt.len() && rt[m] == x;
                assert(r[m + 1] == x);
            }
        }
        assert(r.to_set() =~= s.to_set().insert(x));
    }
}

/// Passing over a name that sorts before `x`.
proof fn lemma_insert_sorted_skip(s: Seq<Seq<char>>, x: Seq<char>, p: int)
    requires
        0 <= p < s.len(),
        crate::text::seq_lt(s[p], x),
    ensures
        insert_sorted(s.skip(p), x) == seq![s[p]] + insert_sorted(s.skip(p + 1), x),
{
    crate::text::lemma_lt_asym(s[p], x);
    assert(s.skip(p)[0] == s[p]);
    assert(s.skip(p).drop_first() =~= s.skip(p + 1));
}

/// Puts `x` in its place in the names `v` (see [`insert_sorted`]).
pub fn sorted_insert(v: &mut Vec<String>, x: &String)
    ensures
        crate::db::strings_view(final(v)@) == insert_sorted(crate::db::strings_view(old(v)@), x@),
{
    let ghost s = crate::db::strings_view(v@);
    let mut p: usize = 0;
    assert(s.take(0) + s.skip(0) =~= s);
    while p < v.len() && crate::text::str_lt(v[p].as_str(), x.as_str())
        invariant
            p <= v.len(),
            s == crate::db::strings_view(v@),
            s == crate::db::strings_view(old(v)@),
            insert_sorted(s, x@) == s.take(p as int) + insert_sorted(s.skip(p as int), x@),
        decreases v.len() - p,
    {
        assert(s[p as int] == v@[p as int]@);
        proof {
            lemma_insert_sorted_skip(s, x@, p as int);
            assert(s.take(p as int) + (seq![s[p as int]] + insert_sorted(s.skip(p + 1), x@)) =~= s.take(
                p + 1,
            ) + insert_sorted(s.skip(p + 1), x@));
        }
        p += 1;
    }
    if p < v.len() {
        assert(s[p as int] == v@[p as int]@);
        assert(s.skip(p as int)[0] == s[p as int]);
        if crate::text::str_eq(v[p].as_str(), x.as_str()) {
            assert(s.take(p as int) + s.skip(p as int) =~= s);
            return;
        }
        proof {
            crate::text::lemma_lt_total(s[p as int], x@);
        }
    } else {
        assert(s.skip(p as int) =~= Seq::<Seq<char>>::empty());
    }
    v.insert(p, x.clone());
    assert(crate::db::strings_view(v@) =~= s.take(p as int) + (seq![x@] + s.skip(p as int)));
}

/// The names as a sorted set: each once, in ascending order.
pub open spec fn name_set(names: Seq<Seq<char>>) -> Seq<Seq<char>>
    decreases names.len(),
{
    if names.len() == 0 {
        Seq::empty()
    } else {
        insert_sorted(name_set(names.drop_last()), names.last())
    }
}

/// The parameter keys a tool is known by: those of its parameter schema,
/// as a sorted set, or none when it has no schema.
pub open spec fn known_keys_spec(schema_keys: Option<Seq<Seq<char>>>) -> Seq<Seq<char>> {
    match schema_keys {
        Some(k) => name_set(k),
        None => Seq::empty(),
    }
}

/// The parameter keys a tool is known by, given the keys of its
/// parameter schema when it has one (see [`known_keys_spec`]).
pub fn known_param_keys(schema_keys: Option<Vec<String>>) -> (r: Vec<String>)
    ensures
        crate::db::strings_view(r@) == known_keys_spec(
            match schema_keys {
                Some(k) => Some(crate::db::strings_view(k@)),
                None => None,
            },
        ),
{
    let mut out: Vec<String> = Vec::new();
    match schema_keys {
        None => {},
        Some(keys) => {
            let ghost kv = crate::db::strings_view(keys@);
            let mut i: usize = 0;
            while i < keys.len()
                invariant
                    i <= keys.len(),
                    kv == crate::db::strings_view(keys@),
                    crate::db::strings_view(out@) == name_set(kv.take(i as int)),
                decreases keys.len() - i,
            {
                assert(kv.take(i + 1).drop_last() =~= kv.take(i as int));
                assert(kv[i as int] == keys@[i as int]@);
                sorted_insert(&mut out, &keys[i]);
                i += 1;
            }
            assert(kv.take(keys.len() as int) =~= kv);
        },
    }
    out
}

/// A tool's parameter descriptions: the key set its parameter schema gives
/// (see [`known_param_keys`]) handed, with the tool id, to the lookup in the
/// tool documentation, whose answer is returned.
pub fn tool_param_descriptions<F>(
    tool_id: &str,
    schema_keys: Option<Vec<String>>,
    doc_descriptions: F,
) -> (r: Option<Vec<(String, String)>>) where
    F: Fn(&str, &Vec<String>) -> Option<Vec<(String, String)>>,

    requires
        forall|keys: &Vec<String>| #[trigger] doc_descriptions.requires((tool_id, keys)),
    ensures
        exists|keys: Vec<String>|
            crate::db::strings_view(keys@) == known_keys_spec(
                match schema_keys {
                    Some(k) => Some(crate::db::strings_view(k@)),
                    None => None,
                },
            ) && #[trigger] doc_descriptions.ensures((tool_id, &keys), r),
{
    let keys = known_param_keys(schema_keys);
    let r = doc_descriptions(tool_id, &keys);
    assert(doc_descriptions.ensures((tool_id, &keys), r));
    r
}

/// Which of a tool's parameters are required: the key set its parameter
/// schema gives (see [`known_param_keys`]) handed, with the tool id, to the
/// lookup in the tool documentation, whose answer is returned.
pub fn tool_param_required<F>(
    tool_id: &str,
    schema_keys: Option<Vec<String>>,
    doc_required: F,
) -> (r: Option<Vec<(String, bool)>>) where
    F: Fn(&str, &Vec<String>) -> Option<Vec<(String, bool)>>,

    requires
        forall|keys: &Vec<String>| #[trigger] doc_required.requires((tool_id, keys)),
    ensures
        exists|keys: Vec<String>|
            crate::db::strings_view(keys@) == known_keys_spec(
                match schema_keys {
                    Some(k) => Some(crate::db::strings_view(k@)),
                    None => None,
                },
            ) && #[trigger] doc_required.ensures((tool_id, &keys), r),
{
    let keys = known_param_keys(schema_keys);
    let r = doc_required(tool_id, &keys);
    assert(doc_required.ensures((tool_id, &keys), r));
    r
}

// ─────────────────────────────────────────────────────────────────────────────
// Parameter documentation of the catalog
// ─────────────────────────────────────────────────────────────────────────────

/// The documentation gathered for one tool: its parameter names in display
/// order, their descriptions and whether each is required.
pub struct CatalogEntry {
    pub order: Vec<String>,
    pub descriptions: Vec<(String, String)>,
    pub required: Vec<(String, bool)>,
}

/// The mathematical value of a catalog entry.
pub struct CatalogEntryV {
    pub order: Seq<Seq<char>>,
    pub descriptions: Seq<(Seq<char>, Seq<char>)>,
    pub required: Seq<(Seq<char>, bool)>,
}

impl View for CatalogEntry {
    type V = CatalogEntryV;

    open spec fn view(&self) -> CatalogEntryV {
        CatalogEntryV {
            order: crate::db::strings_view(self.order@),
            descriptions: text_pairs_view(self.descriptions@),
            required: flag_pairs_view(self.required@),
        }
    }
}

/// Parameter documentation of every tool, by tool id.
pub struct CatalogParamMetadata {
    pub entries: Vec<(String, CatalogEntry)>,
}

impl View for CatalogParamMetadata {
    type V = Seq<(Seq<char>, CatalogEntryV)>;

    open spec fn view(&self) -> Seq<(Seq<char>, CatalogEntryV)> {
        self.entries@.map_values(|e: (String, CatalogEntry)| (e.0@, e.1@))
    }
}

/// The parameter names, each once, in order of first appearance.
pub open spec fn unique_names(ps: Seq<crate::tool::ParamV>) -> Seq<Seq<char>>
    decreases ps.len(),
{
    if ps.len() == 0 {
        Seq::empty()
    } else {
        let acc = unique_names(ps.drop_last());
        if acc.contains(ps.last().name) {
            acc
        } else {
            acc.push(ps.last().name)
        }
    }
}

/// The trimmed non-blank descriptions, by parameter name (the last one
/// given wins).
pub open spec fn desc_pairs(ps: Seq<crate::tool::ParamV>) -> Seq<(Seq<char>, Seq<char>)>
    decreases ps.len(),
{
    if ps.len() == 0 {
        Seq::empty()
    } else {
        let acc = desc_pairs(ps.drop_last());
        let d = trim_spec(ps.last().description);
        if d.len() > 0 {
            assoc_insert(acc, ps.last().name, d)
        } else {
            acc
        }
    }
}

/// Whether each parameter is required, by name (the last one given wins).
pub open spec fn required_pairs(ps: Seq<crate::tool::ParamV>) -> Seq<(Seq<char>, bool)>
    decreases ps.len(),
{
    if ps.len() == 0 {
        Seq::empty()
    } else {
        assoc_insert(required_pairs(ps.drop_last()), ps.last().name, ps.last().required)
    }
}

/// The documentation gathered from one tool's metadata.
pub open spec fn entry_spec(t: crate::tool::ToolMetadataV) -> CatalogEntryV {
    CatalogEntryV {
        order: reorder_spec(t.id, unique_names(t.params)),
        descriptions: desc_pairs(t.params),
        required: required_pairs(t.params),
    }
}

/// The documentation gathered from the tools' metadata, by tool id.
pub open spec fn catalog_spec(tools: Seq<crate::tool::ToolMetadataV>) -> Seq<(Seq<char>, CatalogEntryV)>
    decreases tools.len(),
{
    if tools.len() == 0 {
        Seq::empty()
    } else {
        assoc_insert(catalog_spec(tools.drop_last()), tools.last().id, entry_spec(tools.last()))
    }
}

/// The documentation gathered from one tool's metadata.
fn build_entry(t: &crate::tool::ToolMetadata) -> (r: CatalogEntry)
    ensures
        r@ == entry_spec(t@),
{
    let ghost ps = t@.params;
    let mut names: Vec<String> = Vec::new();
    let mut descs: Vec<(String, String)> = Vec::new();
    let mut req: Vec<(String, bool)> = Vec::new();
    let mut i: usize = 0;
    assert(ps.take(0) =~= Seq::<crate::tool::ParamV>::empty());
    while i < t.params.len()
        invariant
            i <= t.params.len(),
            ps == t@.params,
            crate::db::strings_view(names@) == unique_names(ps.take(i as int)),
            text_pairs_view(descs@) == desc_pairs(ps.take(i as int)),
            flag_pairs_view(req@) == required_pairs(ps.take(i as int)),
        decreases t.params.len() - i,
    {
        let p = &t.params[i];
        assert(ps[i as int] == p@);
        assert(ps.take(i + 1).drop_last() =~= ps.take(i as int));
        assert(ps.take(i + 1).last() == p@);
        let seen = contains_exact(&names, p.name.as_str());
        if !seen {
            let ghost prev = crate::db::strings_view(names@);
            names.push(p.name.clone());
            assert(crate::db::strings_view(names@) =~= prev.push(p.name@));
        }
        let d = trim(p.description.as_str());
        if chars_of(d.as_str()).len() > 0 {
            text_pair_set(&mut descs, p.name.clone(), d);
        }
        flag_pair_set(&mut req, p.name.clone(), p.required);
        i += 1;
    }
    assert(ps.take(i as int) =~= ps);
    let order = reorder_param_names_logical(t.id.as_str(), &names);
    CatalogEntry { order, descriptions: descs, required: req }
}

/// Whether `names` has `n`.
fn contains_exact(names: &Vec<String>, n: &str) -> (r: bool)
    ensures
        r == crate::db::strings_view(names@).contains(n@),
{
    let ghost v = crate::db::strings_view(names@);
    let mut j: usize = 0;
    while j < names.len()
        invariant
            j <= names.len(),
            v == crate::db::strings_view(names@),
            forall|k: int| 0 <= k < j ==> v[k] != n@,
        decreases names.len() - j,
    {
        assert(v[j as int] == names@[j as int]@);
        if str_eq(names[j].as_str(), n) {
            return true;
        }
        j += 1;
    }
    false
}

/// The position of the entry of `id`.
fn entry_index(entries: &Vec<(String, CatalogEntry)>, id: &str) -> (r: Option<usize>)
    ensures
        match r {
            Some(i) => crate::assoc::assoc_index(
                entries@.map_values(|e: (String, CatalogEntry)| (e.0@, e.1@)),
                id@,
            ) == Some(i as int) && i < entries.len(),
            None => crate::assoc::assoc_index(
                entries@.map_values(|e: (String, CatalogEntry)| (e.0@, e.1@)),
                id@,
            ) is None,
        },
{
    let ghost o = entries@.map_values(|e: (String, CatalogEntry)| (e.0@, e.1@));
    let ghost pred = crate::assoc::key_of::<CatalogEntryV>(id@);
    proof {
        crate::geopackage::lemma_first_where(o, pred);
    }
    let mut i: usize = 0;
    while i < entries.len()
        invariant
            i <= entries.len(),
            o == entries@.map_values(|e: (String, CatalogEntry)| (e.0@, e.1@)),
            pred == crate::assoc::key_of::<CatalogEntryV>(id@),
            forall|j: int| 0 <= j < i ==> !pred(#[trigger] o[j]),
            match crate::geopackage::first_where(o, pred) {
                Some(k) => 0 <= k < o.len() && pred(o[k]) && forall|j: int| 0 <= j < k ==> !pred(o[j]),
                None => forall|j: int| 0 <= j < o.len() ==> !pred(o[j]),
            },
        decreases entries.len() - i,
    {
        assert(o[i as int] == (entries@[i as int].0@, entries@[i as int].1@));
        if str_eq(entries[i].0.as_str(), id) {
            assert(pred(o[i as int]));
            return Some(i);
        }
        i += 1;
    }
    None
}

/// Gathers the parameter documentation of the given tools, by tool id:
/// each tool's parameter names in display order (see
/// [`reorder_param_names_logical`]), its trimmed non-blank descriptions
/// and its required flags.
pub fn build_catalog_param_metadata(tools: &Vec<crate::tool::ToolMetadata>) -> (r: CatalogParamMetadata)
    ensures
        r@ == catalog_spec(tools@.map_values(|t: crate::tool::ToolMetadata| t@)),
{
    let ghost tv = tools@.map_values(|t: crate::tool::ToolMetadata| t@);
    let mut out = CatalogParamMetadata { entries: Vec::new() };
    let mut i: usize = 0;
    assert(out@ =~= catalog_spec(tv.take(0)));
    while i < tools.len()
        invariant
            i <= tools.len(),
            tv == tools@.map_values(|t: crate::tool::ToolMetadata| t@),
            out@ == catalog_spec(tv.take(i as int)),
        decreases tools.len() - i,
    {
        assert(tv[i as int] == tools@[i as int]@);
        assert(tv.take(i + 1).drop_last() =~= tv.take(i as int));
        assert(tv.take(i + 1).last() == tv[i as int]);
        let e = build_entry(&tools[i]);
        let ghost o = out@;
        let ghost kv = (tools@[i as int].id@, e@);
        match entry_index(&out.entries, tools[i].id.as_str()) {
            Some(k) => {
                out.entries.set(k, (tools[i].id.clone(), e));
                assert(out@ =~= o.update(k as int, kv));
            },
            None => {
                out.entries.push((tools[i].id.clone(), e));
                assert(out@ =~= o.push(kv));
            },
        }
        i += 1;
    }
    assert(tv.take(i as int) =~= tv);
    out
}


/// A description is missing when there is none or it is blank.
pub open spec fn desc_missing(cur: Seq<(Seq<char>, Seq<char>)>, name: Seq<char>) -> bool {
    match assoc_get(cur, name) {
        Some(d) => trim_spec(d).len() == 0,
        None => true,
    }
}

/// The descriptions completed from the gathered ones, which fill in the
/// missing or blank ones.
pub open spec fn merge_descs(cur: Seq<(Seq<char>, Seq<char>)>, md: Seq<(Seq<char>, Seq<char>)>) -> Seq<
    (Seq<char>, Seq<char>),
>
    decreases md.len(),
{
    if md.len() == 0 {
        cur
    } else {
        let acc = merge_descs(cur, md.drop_last());
        if desc_missing(acc, md.last().0) {
            assoc_insert(acc, md.last().0, md.last().1)
        } else {
            acc
        }
    }
}

/// The required flags completed from the gathered ones, which fill in the
/// absent ones.
pub open spec fn merge_required(cur: Seq<(Seq<char>, bool)>, mr: Seq<(Seq<char>, bool)>) -> Seq<(Seq<char>, bool)>
    decreases mr.len(),
{
    if mr.len() == 0 {
        cur
    } else {
        let acc = merge_required(cur, mr.drop_last());
        if assoc_get(acc, mr.last().0) is None {
            assoc_insert(acc, mr.last().0, mr.last().1)
        } else {
            acc
        }
    }
}

/// Completes a tool's parameter descriptions and required flags from the
/// documentation gathered for it, if any: a missing or blank description
/// takes the gathered one, an absent flag the gathered one.
pub fn merge_param_docs_with_metadata(
    tool_id: &str,
    param_descriptions: &mut Vec<(String, String)>,
    param_required: &mut Vec<(String, bool)>,
    metadata: &CatalogParamMetadata,
)
    ensures
        match assoc_get(metadata@, tool_id@) {
            Some(e) => {
                &&& text_pairs_view(final(param_descriptions)@) == merge_descs(
                    text_pairs_view(old(param_descriptions)@),
                    e.descriptions,
                )
                &&& flag_pairs_view(final(param_required)@) == merge_required(
                    flag_pairs_view(old(param_required)@),
                    e.required,
                )
            },
            None => {
                &&& final(param_descriptions)@ == old(param_descriptions)@
                &&& final(param_required)@ == old(param_required)@
            },
        },
{
    let k = match entry_index(&metadata.entries, tool_id) {
        Some(k) => k,
        None => {
            return;
        },
    };
    let e = &metadata.entries[k].1;
    assert(metadata@[k as int] == (metadata.entries@[k as int].0@, e@));
    let ghost md = text_pairs_view(e.descriptions@);
    let ghost d0 = text_pairs_view(param_descriptions@);
    let mut i: usize = 0;
    assert(md.take(0) =~= Seq::<(Seq<char>, Seq<char>)>::empty());
    while i < e.descriptions.len()
        invariant
            i <= e.descriptions.len(),
            md == text_pairs_view(e.descriptions@),
            text_pairs_view(param_descriptions@) == merge_descs(d0, md.take(i as int)),
        decreases e.descriptions.len() - i,
    {
        let (name, desc) = (&e.descriptions[i].0, &e.descriptions[i].1);
        assert(md[i as int] == (name@, desc@));
        assert(md.take(i + 1).drop_last() =~= md.take(i as int));
        assert(md.take(i + 1).last() == md[i as int]);
        let missing = match text_pair_get(param_descriptions, name.as_str()) {
            Some(existing) => chars_of(trim(existing.as_str()).as_str()).len() == 0,
            None => true,
        };
        if missing {
            text_pair_set(param_descriptions, name.clone(), desc.clone());
        }
        i += 1;
    }
    assert(md.take(i as int) =~= md);
    let ghost mr = flag_pairs_view(e.required@);
    let ghost r0 = flag_pairs_view(param_required@);
    let mut j: usize = 0;
    assert(mr.take(0) =~= Seq::<(Seq<char>, bool)>::empty());
    while j < e.required.len()
        invariant
            j <= e.required.len(),
            mr == flag_pairs_view(e.required@),
            flag_pairs_view(param_required@) == merge_required(r0, mr.take(j as int)),
        decreases e.required.len() - j,
    {
        let name = &e.required[j].0;
        let req = e.required[j].1;
        assert(mr[j as int] == (name@, req));
        assert(mr.take(j + 1).drop_last() =~= mr.take(j as int));
        assert(mr.take(j + 1).last() == mr[j as int]);
        if flag_pair_get(param_required, name.as_str()).is_none() {
            flag_pair_set(param_required, name.clone(), req);
        }
        j += 1;
    }
    assert(mr.take(j as int) =~= mr);
}

/// The trimmed non-blank names, each once, in order.
pub open spec fn ordered_spec(names: Seq<Seq<char>>) -> Seq<Seq<char>>
    decreases names.len(),
{
    if names.len() == 0 {
        Seq::empty()
    } else {
        let acc = ordered_spec(names.drop_last());
        let k = trim_spec(names.last());
        if k.len() > 0 && !acc.contains(k) {
            acc.push(k)
        } else {
            acc
        }
    }
}

/// The candidate names not in `seen`, sorted, each once.
pub open spec fn extras_spec(cands: Seq<Seq<char>>, seen: Seq<Seq<char>>) -> Seq<Seq<char>>
    decreases cands.len(),
{
    if cands.len() == 0 {
        Seq::empty()
    } else {
        let acc = extras_spec(cands.drop_last(), seen);
        if seen.contains(cands.last()) {
            acc
        } else {
            insert_sorted(acc, cands.last())
        }
    }
}

/// A parameter listed by name, with its description and required flag
/// where they are known.
pub open spec fn param_for(
    n: Seq<char>,
    descs: Seq<(Seq<char>, Seq<char>)>,
    req: Seq<(Seq<char>, bool)>,
) -> crate::tool::ParamV {
    crate::tool::ParamV {
        name: n,
        description: match assoc_get(descs, n) {
            Some(d) => d,
            None => Seq::empty(),
        },
        required: match assoc_get(req, n) {
            Some(b) => b,
            None => false,
        },
    }
}

/// A listed parameter completed: a blank description takes the known one,
/// and a known required flag replaces its own.
pub open spec fn filled_param(
    p: crate::tool::ParamV,
    descs: Seq<(Seq<char>, Seq<char>)>,
    req: Seq<(Seq<char>, bool)>,
) -> crate::tool::ParamV {
    crate::tool::ParamV {
        name: p.name,
        description: if trim_spec(p.description).len() == 0 && assoc_get(descs, p.name) is Some {
            assoc_get(descs, p.name)->0
        } else {
            p.description
        },
        required: match assoc_get(req, p.name) {
            Some(b) => b,
            None => p.required,
        },
    }
}

/// The parameters of an enriched manifest: without listed parameters,
/// the ordered names then the other known names, sorted; with listed
/// parameters, those completed.
pub open spec fn enriched_params(
    params: Seq<crate::tool::ParamV>,
    schema_keys: Seq<Seq<char>>,
    descs: Seq<(Seq<char>, Seq<char>)>,
    req: Seq<(Seq<char>, bool)>,
    ordered: Option<Seq<Seq<char>>>,
) -> Seq<crate::tool::ParamV> {
    if params.len() == 0 {
        let names = match ordered {
            Some(o) => ordered_spec(o),
            None => Seq::empty(),
        };
        let ex = extras_spec(
            schema_keys + crate::assoc::assoc_keys(descs) + crate::assoc::assoc_keys(req),
            names,
        );
        (names + ex).map_values(|n: Seq<char>| param_for(n, descs, req))
    } else {
        params.map_values(|p: crate::tool::ParamV| filled_param(p, descs, req))
    }
}

/// Adds the non-seen names of `cands` to the sorted `extras`.
fn add_extras(extras: &mut Vec<String>, cands: &Vec<String>, seen: &Vec<String>)
    ensures
        crate::db::strings_view(final(extras)@) == extras_spec_from(
            crate::db::strings_view(old(extras)@),
            crate::db::strings_view(cands@),
            crate::db::strings_view(seen@),
        ),
{
    let ghost cv = crate::db::strings_view(cands@);
    let ghost sv = crate::db::strings_view(seen@);
    let ghost e0 = crate::db::strings_view(extras@);
    let mut i: usize = 0;
    assert(cv.take(0) =~= Seq::<Seq<char>>::empty());
    while i < cands.len()
        invariant
            i <= cands.len(),
            cv == crate::db::strings_view(cands@),
            sv == crate::db::strings_view(seen@),
            crate::db::strings_view(extras@) == extras_spec_from(e0, cv.take(i as int), sv),
        decreases cands.len() - i,
    {
        assert(cv[i as int] == cands@[i as int]@);
        assert(cv.take(i + 1).drop_last() =~= cv.take(i as int));
        assert(cv.take(i + 1).last() == cv[i as int]);
        if !contains_exact(seen, cands[i].as_str()) {
            sorted_insert(extras, &cands[i]);
        }
        i += 1;
    }
    assert(cv.take(i as int) =~= cv);
}

/// `extras_spec` continued from `acc`.
pub open spec fn extras_spec_from(acc: Seq<Seq<char>>, cands: Seq<Seq<char>>, seen: Seq<Seq<char>>) -> Seq<
    Seq<char>,
>
    decreases cands.len(),
{
    if cands.len() == 0 {
        acc
    } else {
        let a = extras_spec_from(acc, cands.drop_last(), seen);
        if seen.contains(cands.last()) {
            a
        } else {
            insert_sorted(a, cands.last())
        }
    }
}

/// Continuing over two lists in turn is continuing over their concatenation.
proof fn lemma_extras_concat(acc: Seq<Seq<char>>, a: Seq<Seq<char>>, b: Seq<Seq<char>>, seen: Seq<Seq<char>>)
    ensures
        extras_spec_from(extras_spec_from(acc, a, seen), b, seen) == extras_spec_from(acc, a + b, seen),
    decreases b.len(),
{
    if b.len() == 0 {
        assert(a + b =~= a);
    } else {
        lemma_extras_concat(acc, a, b.drop_last(), seen);
        assert((a + b).drop_last() =~= a + b.drop_last());
        assert((a + b).last() == b.last());
    }
}

/// `extras_spec` is `extras_spec_from` started empty.
proof fn lemma_extras_spec(cands: Seq<Seq<char>>, seen: Seq<Seq<char>>)
    ensures
        extras_spec(cands, seen) == extras_spec_from(Seq::empty(), cands, seen),
    decreases cands.len(),
{
    if cands.len() > 0 {
        lemma_extras_spec(cands.drop_last(), seen);
    }
}

/// The keys of a list of text pairs.
fn text_keys(pairs: &Vec<(String, String)>) -> (r: Vec<String>)
    ensures
        crate::db::strings_view(r@) == crate::assoc::assoc_keys(text_pairs_view(pairs@)),
{
    let mut out: Vec<String> = Vec::new();
    let mut i: usize = 0;
    while i < pairs.len()
        invariant
            i <= pairs.len(),
            crate::db::strings_view(out@) == crate::assoc::assoc_keys(text_pairs_view(pairs@)).take(i as int),
        decreases pairs.len() - i,
    {
        let ghost prev = crate::db::strings_view(out@);
        assert(text_pairs_view(pairs@)[i as int] == (pairs@[i as int].0@, pairs@[i as int].1@));
        out.push(pairs[i].0.clone());
        assert(crate::db::strings_view(out@) =~= prev.push(pairs@[i as int].0@));
        assert(crate::db::strings_view(out@) =~= crate::assoc::assoc_keys(text_pairs_view(pairs@)).take(i + 1));
        i += 1;
    }
    assert(crate::assoc::assoc_keys(text_pairs_view(pairs@)).take(i as int) =~= crate::assoc::assoc_keys(
        text_pairs_view(pairs@),
    ));
    out
}

/// The keys of a list of text/flag pairs.
fn flag_keys(pairs: &Vec<(String, bool)>) -> (r: Vec<String>)
    ensures
        crate::db::strings_view(r@) == crate::assoc::assoc_keys(flag_pairs_view(pairs@)),
{
    let mut out: Vec<String> = Vec::new();
    let mut i: usize = 0;
    while i < pairs.len()
        invariant
            i <= pairs.len(),
            crate::db::strings_view(out@) == crate::assoc::assoc_keys(flag_pairs_view(pairs@)).take(i as int),
        decreases pairs.len() - i,
    {
        let ghost prev = crate::db::strings_view(out@);
        assert(flag_pairs_view(pairs@)[i as int] == (pairs@[i as int].0@, pairs@[i as int].1));
        out.push(pairs[i].0.clone());
        assert(crate::db::strings_view(out@) =~= prev.push(pairs@[i as int].0@));
        assert(crate::db::strings_view(out@) =~= crate::assoc::assoc_keys(flag_pairs_view(pairs@)).take(i + 1));
        i += 1;
    }
    assert(crate::assoc::assoc_keys(flag_pairs_view(pairs@)).take(i as int) =~= crate::assoc::assoc_keys(
        flag_pairs_view(pairs@),
    ));
    out
}

/// A parameter listed by name (see [`param_for`]).
fn param_for_exec(n: &String, descs: &Vec<(String, String)>, req: &Vec<(String, bool)>) -> (r:
    crate::tool::ToolParamDescriptor)
    ensures
        r@ == param_for(n@, text_pairs_view(descs@), flag_pairs_view(req@)),
{
    let description = match text_pair_get(descs, n.as_str()) {
        Some(d) => d.clone(),
        None => String::new(),
    };
    let required = match flag_pair_get(req, n.as_str()) {
        Some(b) => b,
        None => false,
    };
    crate::tool::ToolParamDescriptor { name: n.clone(), description, required }
}

/// A listed parameter completed (see [`filled_param`]).
fn filled_param_exec(
    p: &crate::tool::ToolParamDescriptor,
    descs: &Vec<(String, String)>,
    req: &Vec<(String, bool)>,
) -> (r: crate::tool::ToolParamDescriptor)
    ensures
        r@ == filled_param(p@, text_pairs_view(descs@), flag_pairs_view(req@)),
{
    let mut q = p.copy();
    if chars_of(trim(p.description.as_str()).as_str()).len() == 0 {
        match text_pair_get(descs, p.name.as_str()) {
            Some(d) => {
                q.description = d.clone();
            },
            None => {},
        }
    }
    match flag_pair_get(req, p.name.as_str()) {
        Some(b) => {
            q.required = b;
        },
        None => {},
    }
    q
}

/// The manifest with its parameters completed (see [`enriched_params`]):
/// `schema_keys` are the names of the parameters that have a schema,
/// `ordered` the parameter names in display order, if known.
#[verifier::spinoff_prover]
pub fn enrich_manifest_params(
    manifest: &ToolManifest,
    schema_keys: &Vec<String>,
    param_descriptions: &Vec<(String, String)>,
    param_required: &Vec<(String, bool)>,
    ordered_param_names: Option<&Vec<String>>,
) -> (r: ToolManifest)
    ensures
        r@ == (crate::tool::ToolManifestV {
            params: enriched_params(
                manifest@.params,
                crate::db::strings_view(schema_keys@),
                text_pairs_view(param_descriptions@),
                flag_pairs_view(param_required@),
                match ordered_param_names {
                    Some(o) => Some(crate::db::strings_view(o@)),
                    None => None,
                },
            ),
            ..manifest@
        }),
{
    let ghost dv = text_pairs_view(param_descriptions@);
    let ghost rv = flag_pairs_view(param_required@);
    let mut enriched = manifest.copy();
    let mut params: Vec<crate::tool::ToolParamDescriptor> = Vec::new();
    if manifest.params.len() == 0 {
        let mut names: Vec<String> = Vec::new();
        let ghost ov = match ordered_param_names {
            Some(o) => crate::db::strings_view(o@),
            None => Seq::<Seq<char>>::empty(),
        };
        match ordered_param_names {
            Some(o) => {
                let mut i: usize = 0;
                assert(ov.take(0) =~= Seq::<Seq<char>>::empty());
                while i < o.len()
                    invariant
                        i <= o.len(),
                        ov == crate::db::strings_view(o@),
                        crate::db::strings_view(names@) == ordered_spec(ov.take(i as int)),
                    decreases o.len() - i,
                {
                    assert(ov[i as int] == o@[i as int]@);
                    assert(ov.take(i + 1).drop_last() =~= ov.take(i as int));
                    assert(ov.take(i + 1).last() == ov[i as int]);
                    let key = trim(o[i].as_str());
                    if chars_of(key.as_str()).len() > 0 && !contains_exact(&names, key.as_str()) {
                        let ghost prev = crate::db::strings_view(names@);
                        names.push(key);
                        assert(crate::db::strings_view(names@) =~= prev.push(trim_spec(ov[i as int])));
                    }
                    i += 1;
                }
                assert(ov.take(i as int) =~= ov);
            },
            None => {
                assert(crate::db::strings_view(names@) =~= Seq::<Seq<char>>::empty());
            },
        }
        let ghost nv = crate::db::strings_view(names@);
        let mut extras: Vec<String> = Vec::new();
        let dk = text_keys(param_descriptions);
        let rk = flag_keys(param_required);
        let ghost e0 = crate::db::strings_view(extras@);
        assert(e0 =~= Seq::<Seq<char>>::empty());
        add_extras(&mut extras, schema_keys, &names);
        let ghost e1 = crate::db::strings_view(extras@);
        add_extras(&mut extras, &dk, &names);
        let ghost e2 = crate::db::strings_view(extras@);
        add_extras(&mut extras, &rk, &names);
        proof {
            let sk = crate::db::strings_view(schema_keys@);
            let dks = crate::assoc::assoc_keys(dv);
            let rks = crate::assoc::assoc_keys(rv);
            lemma_extras_concat(e0, sk, dks, nv);
            lemma_extras_concat(e0, sk + dks, rks, nv);
            lemma_extras_spec(sk + dks + rks, nv);
        }
        let ghost all = nv + crate::db::strings_view(extras@);
        let mut k: usize = 0;
        while k < names.len()
            invariant
                k <= names.len(),
                nv == crate::db::strings_view(names@),
                params@.map_values(|p: crate::tool::ToolParamDescriptor| p@) == nv.take(k as int).map_values(
                    |n: Seq<char>| param_for(n, dv, rv),
                ),
                dv == text_pairs_view(param_descriptions@),
                rv == flag_pairs_view(param_required@),
            decreases names.len() - k,
        {
            assert(nv[k as int] == names@[k as int]@);
            let p = param_for_exec(&names[k], param_descriptions, param_required);
            let ghost prev = params@.map_values(|p: crate::tool::ToolParamDescriptor| p@);
            params.push(p);
            assert(params@.map_values(|p: crate::tool::ToolParamDescriptor| p@) =~= prev.push(p@));
            assert(nv.take(k + 1) =~= nv.take(k as int).push(nv[k as int]));
            assert(nv.take(k + 1).map_values(|n: Seq<char>| param_for(n, dv, rv)) =~= nv.take(
                k as int,
            ).map_values(|n: Seq<char>| param_for(n, dv, rv)).push(p@));
            k += 1;
        }
        assert(nv.take(k as int) =~= nv);
        let ghost xv = crate::db::strings_view(extras@);
        let mut m: usize = 0;
        assert(xv.take(0) =~= Seq::<Seq<char>>::empty());
        assert(nv + xv.take(0) =~= nv);
        while m < extras.len()
            invariant
                m <= extras.len(),
                xv == crate::db::strings_view(extras@),
                params@.map_values(|p: crate::tool::ToolParamDescriptor| p@) == (nv + xv.take(m as int)).map_values(
                    |n: Seq<char>| param_for(n, dv, rv),
                ),
                dv == text_pairs_view(param_descriptions@),
                rv == flag_pairs_view(param_required@),
            decreases extras.len() - m,
        {
            assert(xv[m as int] == extras@[m as int]@);
            let p = param_for_exec(&extras[m], param_descriptions, param_required);
            let ghost prev = params@.map_values(|p: crate::tool::ToolParamDescriptor| p@);
            params.push(p);
            assert(params@.map_values(|p: crate::tool::ToolParamDescriptor| p@) =~= prev.push(p@));
            assert(nv + xv.take(m + 1) =~= (nv + xv.take(m as int)).push(xv[m as int]));
            assert((nv + xv.take(m + 1)).map_values(|n: Seq<char>| param_for(n, dv, rv)) =~= (nv
                + xv.take(m as int)).map_values(|n: Seq<char>| param_for(n, dv, rv)).push(p@));
            m += 1;
        }
        assert(xv.take(m as int) =~= xv);
    } else {
        let ghost pv = manifest@.params;
        let mut k: usize = 0;
        while k < manifest.params.len()
            invariant
                k <= manifest.params.len(),
                pv == manifest@.params,
                params@.map_values(|p: crate::tool::ToolParamDescriptor| p@) == pv.take(k as int).map_values(
                    |p: crate::tool::ParamV| filled_param(p, dv, rv),
                ),
                dv == text_pairs_view(param_descriptions@),
                rv == flag_pairs_view(param_required@),
            decreases manifest.params.len() - k,
        {
            assert(pv[k as int] == manifest.params@[k as int]@);
            let p = filled_param_exec(&manifest.params[k], param_descriptions, param_required);
            let ghost prev = params@.map_values(|p: crate::tool::ToolParamDescriptor| p@);
            params.push(p);
            assert(params@.map_values(|p: crate::tool::ToolParamDescriptor| p@) =~= prev.push(p@));
            assert(pv.take(k + 1) =~= pv.take(k as int).push(pv[k as int]));
            assert(pv.take(k + 1).map_values(|p: crate::tool::ParamV| filled_param(p, dv, rv)) =~= pv.take(
                k as int,
            ).map_values(|p: crate::tool::ParamV| filled_param(p, dv, rv)).push(p@));
            k += 1;
        }
        assert(pv.take(k as int) =~= pv);
    }
    enriched.params = params;
    enriched
}


/// The extra names are sorted, each once, and are exactly the candidates
/// not already listed.
pub proof fn law_extras(cands: Seq<Seq<char>>, seen: Seq<Seq<char>>)
    ensures
        sorted_strict(extras_spec(cands, seen)),
        forall|n: Seq<char>|
            extras_spec(cands, seen).contains(n) <==> (cands.contains(n) && !seen.contains(n)),
    decreases cands.len(),
{
    if cands.len() > 0 {
        let p = cands.drop_last();
        law_extras(p, seen);
        let acc = extras_spec(p, seen);
        let x = cands.last();
        if !seen.contains(x) {
            law_insert_sorted(acc, x);
        }
        assert forall|n: Seq<char>|
            extras_spec(cands, seen).contains(n) <==> (cands.contains(n) && !seen.contains(n)) by {
            let e = extras_spec(cands, seen);
            if !seen.contains(x) {
                assert(e.to_set().contains(n) == e.contains(n));
                assert(acc.to_set().contains(n) == acc.contains(n));
            }
            if cands.contains(n) {
                let k = choose|k: int| 0 <= k < cands.len() && cands[k] == n;
                if k < p.len() {
                    assert(p[k] == n);
                }
            }
            if p.contains(n) {
                let k = choose|k: int| 0 <= k < p.len() && p[k] == n;
                assert(cands[k] == n);
            }
            if n == x {
                assert(cands[cands.len() - 1] == x);
            }
        }
    } else {
        assert(sorted_strict(Seq::<Seq<char>>::empty()));
    }
}


// ─────────────────────────────────────────────────────────────────────────────
// Local license state and Python errors
// ─────────────────────────────────────────────────────────────────────────────

/// `base` joined with the relative component `comp` (Unix separators).
pub open spec fn join_path(base: Seq<char>, comp: Seq<char>) -> Seq<char> {
    if base.len() == 0 {
        comp
    } else if base.last() == '/' {
        base + comp
    } else {
        base + "/"@ + comp
    }
}

/// Where the local license state is kept: the trimmed override when it is
/// not blank, else `.whitebox/wbw_ng_license_state.json` under the home
/// directory (`HOME`, else `USERPROFILE`, else the current directory).
pub open spec fn license_state_path_spec(
    env_override: Option<Seq<char>>,
    home: Option<Seq<char>>,
    userprofile: Option<Seq<char>>,
) -> Seq<char> {
    let o = match env_override {
        Some(p) => trim_spec(p),
        None => Seq::empty(),
    };
    if o.len() > 0 {
        o
    } else {
        let base = match home {
            Some(h) => h,
            None => match userprofile {
                Some(u) => u,
                None => "."@,
            },
        };
        join_path(join_path(base, ".whitebox"@), "wbw_ng_license_state.json"@)
    }
}

fn join_path_exec(base: String, comp: &str) -> (r: String)
    ensures
        r@ == join_path(base@, comp@),
{
    let v = chars_of(base.as_str());
    if v.len() == 0 {
        to_owned_string(comp)
    } else if v[v.len() - 1] == '/' {
        let mut b = base;
        push_str(&mut b, comp);
        b
    } else {
        let mut b = base;
        push_str(&mut b, "/");
        push_str(&mut b, comp);
        b
    }
}

/// Where the local license state is kept (see [`license_state_path_spec`]);
/// the arguments are the values of `WBW_LICENSE_STATE_PATH`, `HOME` and
/// `USERPROFILE`, when set.
pub fn license_state_path(env_override: Option<&str>, home: Option<&str>, userprofile: Option<&str>) -> (r:
    String)
    ensures
        r@ == license_state_path_spec(
            match env_override {
                Some(p) => Some(p@),
                None => None,
            },
            match home {
                Some(h) => Some(h@),
                None => None,
            },
            match userprofile {
                Some(u) => Some(u@),
                None => None,
            },
        ),
{
    match env_override {
        Some(p) => {
            let t = trim(p);
            if chars_of(t.as_str()).len() > 0 {
                return t;
            }
        },
        None => {},
    }
    let base = match home {
        Some(h) => to_owned_string(h),
        None => match userprofile {
            Some(u) => to_owned_string(u),
            None => to_owned_string("."),
        },
    };
    let dir = join_path_exec(base, ".whitebox");
    join_path_exec(dir, "wbw_ng_license_state.json")
}

/// The text of the error for a license state without a field.
pub open spec fn missing_field_msg(field: Seq<char>) -> Seq<char> {
    "license state missing '"@ + field + "'"@
}

/// The error for a license state without the string field `field`.
pub fn missing_field_error(field: &str) -> (r: ToolError)
    ensures
        r@ == ToolErrorV::InvalidRequest(missing_field_msg(field@)),
{
    let mut m = to_owned_string("license state missing '");
    push_str(&mut m, field);
    push_str(&mut m, "'");
    ToolError::InvalidRequest(m)
}

/// The kind of Python exception a tool error is raised as.
#[derive(Clone, Copy, PartialEq, Eq, Debug, Structural)]
pub enum PyErrorKind {
    /// `ValueError`: the request was wrong.
    Value,
    /// `RuntimeError`: the request was refused or failed while running.
    Runtime,
}

/// Validation, not-found and invalid-request errors are value errors;
/// license and execution errors are runtime errors.
pub fn python_error_kind(e: &ToolError) -> (r: PyErrorKind)
    ensures
        r == match e@ {
            ToolErrorV::Validation(_) | ToolErrorV::NotFound(_) | ToolErrorV::InvalidRequest(_) => PyErrorKind::Value,
            ToolErrorV::LicenseDenied(_) | ToolErrorV::Execution(_) => PyErrorKind::Runtime,
        },
{
    match e {
        ToolError::Validation(_) => PyErrorKind::Value,
        ToolError::NotFound(_) => PyErrorKind::Value,
        ToolError::InvalidRequest(_) => PyErrorKind::Value,
        ToolError::LicenseDenied(_) => PyErrorKind::Runtime,
        ToolError::Execution(_) => PyErrorKind::Runtime,
    }
}

} // verus!





