//! Shaping the admin routes' requests and answers.

use vstd::prelude::*;

use crate::errors::GatewayError;
use crate::text::{push_str, str_eq, string_from_chars};

verus! {

/// The records an admin may update.
pub enum UpdateTarget {
    /// A user profile: `plan`, `role` and `banned` may change.
    User,
    /// A project: `hidden` and `is_public` may change.
    Project,
}

/// The fields of `target` that an admin update may set.
pub open spec fn field_allowed(target: UpdateTarget, key: Seq<char>) -> bool {
    match target {
        UpdateTarget::User => key == "plan"@ || key == "role"@ || key == "banned"@,
        UpdateTarget::Project => key == "hidden"@ || key == "is_public"@,
    }
}

/// Whether an admin update of `target` may set the field `key`.
pub fn is_field_allowed(target: &UpdateTarget, key: &str) -> (r: bool)
    ensures
        r == field_allowed(*target, key@),
{
    match target {
        UpdateTarget::User => str_eq(key, "plan") || str_eq(key, "role") || str_eq(key, "banned"),
        UpdateTarget::Project => str_eq(key, "hidden") || str_eq(key, "is_public"),
    }
}

/// The entries of `fields` whose keys `target` allows, in their order.
pub open spec fn allowed_entries<T>(target: UpdateTarget, fields: Seq<(String, T)>) -> Seq<(String, T)>
    decreases fields.len(),
{
    if fields.len() == 0 {
        Seq::empty()
    } else {
        let kept = allowed_entries(target, fields.drop_last());
        if field_allowed(target, fields.last().0@) {
            kept.push(fields.last())
        } else {
            kept
        }
    }
}

/// An admin update passes on only fields its target allows, each taken
/// unchanged from the body, in the body's order.
pub proof fn lemma_allowed_entries_sound<T>(target: UpdateTarget, fields: Seq<(String, T)>)
    ensures
        forall|i: int| 0 <= i < allowed_entries(target, fields).len()
            ==> field_allowed(target, #[trigger] allowed_entries(target, fields)[i].0@),
        forall|i: int| 0 <= i < allowed_entries(target, fields).len()
            ==> fields.contains(#[trigger] allowed_entries(target, fields)[i]),
        allowed_entries(target, fields).len() <= fields.len(),
    decreases fields.len(),
{
    if fields.len() > 0 {
        let rest = fields.drop_last();
        lemma_allowed_entries_sound(target, rest);
        let kept = allowed_entries(target, fields);
        assert forall|i: int| 0 <= i < kept.len() implies fields.contains(#[trigger] kept[i]) by {
            if i < allowed_entries(target, rest).len() {
                let x = allowed_entries(target, rest)[i];
                assert(rest.contains(x));
                let j = choose|j: int| 0 <= j < rest.len() && rest[j] == x;
                assert(fields[j] == x);
            } else {
                assert(kept[i] == fields[fields.len() - 1]);
            }
        }
    }
}

/// The fields a user update keeps are exactly those named `plan`, `role`
/// or `banned`, in the body's order, values untouched.
pub proof fn lemma_user_update_fields<T>(fields: Seq<(String, T)>)
    ensures
        allowed_entries(UpdateTarget::User, fields)
            == fields.filter(|e: (String, T)| e.0@ == "plan"@ || e.0@ == "role"@ || e.0@ == "banned"@),
    decreases fields.len(),
{
    reveal_with_fuel(Seq::<_>::filter, 1);
    if fields.len() > 0 {
        lemma_user_update_fields(fields.drop_last());
    }
}

/// The fields a project update keeps are exactly those named `hidden` or
/// `is_public`, in the body's order, values untouched.
pub proof fn lemma_project_update_fields<T>(fields: Seq<(String, T)>)
    ensures
        allowed_entries(UpdateTarget::Project, fields)
            == fields.filter(|e: (String, T)| e.0@ == "hidden"@ || e.0@ == "is_public"@),
    decreases fields.len(),
{
    reveal_with_fuel(Seq::<_>::filter, 1);
    if fields.len() > 0 {
        lemma_project_update_fields(fields.drop_last());
    }
}

/// Keeps the fields of an update body that `target` allows (values are
/// passed through untouched); refuses with `NoValidFields` when none is left.
/// A body that is not an object comes as no fields.
pub fn allowed_update<T>(target: UpdateTarget, fields: Vec<(String, T)>) -> (r: Result<Vec<(String, T)>, GatewayError>)
    ensures
        allowed_entries(target, fields@).len() == 0 ==> r matches Err(GatewayError::NoValidFields),
        allowed_entries(target, fields@).len() > 0 ==> (r matches Ok(kept) && kept@ == allowed_entries(target, fields@)),
{
    let ghost all = fields@;
    let total: usize = fields.len();
    assert(all.len() == total);
    let mut kept: Vec<(String, T)> = Vec::new();
    let mut rest = fields;
    let mut taken: usize = 0;
    while rest.len() > 0
        invariant
            taken + rest@.len() == all.len(),
            all.len() <= usize::MAX,
            rest@ == all.subrange(taken as int, all.len() as int),
            kept@ == allowed_entries(target, all.subrange(0, taken as int)),
        decreases rest@.len(),
    {
        let e = rest.remove(0);
        assert(all.subrange(0, taken + 1).drop_last() =~= all.subrange(0, taken as int));
        assert(all.subrange(0, taken + 1).last() == e);
        if is_field_allowed(&target, e.0.as_str()) {
            kept.push(e);
        }
        taken = taken + 1;
        assert(rest@ =~= all.subrange(taken as int, all.len() as int));
    }
    assert(all.subrange(0, all.len() as int) =~= all);
    if kept.len() == 0 {
        Err(GatewayError::NoValidFields)
    } else {
        Ok(kept)
    }
}

/// The store path that updates record `id` of `target`:
/// `profiles?id=eq.{id}` or `projects?id=eq.{id}`.
pub fn update_path(target: &UpdateTarget, id: &str) -> (r: String)
    ensures
        r@ == (match *target { UpdateTarget::User => "profiles"@, UpdateTarget::Project => "projects"@ })
            + "?id=eq."@ + id@,
{
    let mut out: Vec<char> = Vec::new();
    match target {
        UpdateTarget::User => push_str(&mut out, "profiles"),
        UpdateTarget::Project => push_str(&mut out, "projects"),
    }
    push_str(&mut out, "?id=eq.");
    push_str(&mut out, id);
    string_from_chars(out.as_slice())
}

/// Subscriber counts by plan and the monthly recurring revenue in yen.
pub struct RevenueSummary {
    pub general: i64,
    pub pro: i64,
    pub enterprise: i64,
    pub mrr_jpy: i64,
}

/// Monthly recurring revenue in yen: 1500 per General and 5000 per Pro
/// subscriber; Enterprise pricing is custom and not counted.
pub open spec fn mrr_jpy(general: int, pro: int) -> int {
    general * 1500 + pro * 5000
}

/// Revenue prices: no subscribers bring nothing, each further General
/// subscriber adds 1500 yen and each further Pro subscriber 5000 yen.
pub proof fn lemma_revenue_prices(general: int, pro: int)
    ensures
        mrr_jpy(0, 0) == 0,
        mrr_jpy(general + 1, pro) == mrr_jpy(general, pro) + 1500,
        mrr_jpy(general, pro + 1) == mrr_jpy(general, pro) + 5000,
        mrr_jpy(general, pro) == 1500 * general + 5000 * pro,
{
}

/// The revenue summary of the given subscriber counts.
pub fn revenue_summary(general: i64, pro: i64, enterprise: i64) -> (r: RevenueSummary)
    requires
        i64::MIN <= general * 1500 <= i64::MAX,
        i64::MIN <= pro * 5000 <= i64::MAX,
        i64::MIN <= mrr_jpy(general as int, pro as int) <= i64::MAX,
    ensures
        r.general == general,
        r.pro == pro,
        r.enterprise == enterprise,
        r.mrr_jpy == mrr_jpy(general as int, pro as int),
{
    RevenueSummary { general, pro, enterprise, mrr_jpy: general * 1500 + pro * 5000 }
}

/// Whether the revenue of these counts can be computed without overflow.
pub fn revenue_in_range(general: i64, pro: i64) -> (r: bool)
    ensures
        r == (i64::MIN <= general * 1500 <= i64::MAX && i64::MIN <= pro * 5000 <= i64::MAX
            && i64::MIN <= mrr_jpy(general as int, pro as int) <= i64::MAX),
{
    match general.checked_mul(1500) {
        None => false,
        Some(g) => match pro.checked_mul(5000) {
            None => false,
            Some(p) => g.checked_add(p).is_some(),
        },
    }
}

} // verus!
