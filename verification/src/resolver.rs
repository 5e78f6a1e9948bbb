//! The model resolver: picks the usable model out of the configured
//! default / fallback pair, against the catalog of model ids the account
//! can access. Runs once at session start (or on demand); the catalog
//! fetch itself is network I/O and happens outside the library — only
//! its outcome is handed in.

use vstd::prelude::*;
use crate::errors::GPTConnectorError;
use crate::types::GPTSettings;
use crate::types::Model;

verus! {

/// Whether some element of `names` reads exactly `name`.
pub open spec fn spec_contains_name(names: Seq<Seq<char>>, name: Seq<char>) -> bool {
    exists|i: int| 0 <= i < names.len() && names[i] == name
}

fn contains_name(names: &Vec<String>, name: &String) -> (r: bool)
    ensures
        r == spec_contains_name(names@.map_values(|s: String| s@), name@),
{
    let ghost views = names@.map_values(|s: String| s@);
    let mut i: usize = 0;
    while i < names.len()
        invariant
            i <= names@.len(),
            views == names@.map_values(|s: String| s@),
            forall|k: int| 0 <= k < i ==> views[k] != name@,
        decreases names@.len() - i,
    {
        if names[i].eq(name) {
            proof {
                assert(views[i as int] == name@);
            }
            return true;
        }
        i = i + 1;
    }
    false
}

/// Resolve which model the session uses.
///
/// `model_names` is the outcome of listing the provider's catalog:
/// `None` when the listing could not be fetched. The default model wins
/// when the catalog lists its name; otherwise the fallback when listed;
/// a catalog that could not be fetched — or that came back empty — fails
/// with `CatalogFetchFailed` (remedy: retry), and a catalog that lists
/// neither name fails with `ModelUnavailable` naming both attempted
/// models (remedy: reconfigure).
pub fn select_model(model_names: &Option<Vec<String>>, settings: &GPTSettings) -> (r: Result<
    Model,
    GPTConnectorError,
>)
    ensures
        (model_names is None || (model_names matches Some(ns) && ns@.len() == 0)) <==> (r matches
            Err(e) && e is CatalogFetchFailed),
        model_names matches Some(ns) && ns@.len() > 0 && spec_contains_name(
            ns@.map_values(|s: String| s@),
            settings.default.name@,
        ) ==> (r matches Ok(m) && m@ == settings.default@),
        model_names matches Some(ns) && ns@.len() > 0 && !spec_contains_name(
            ns@.map_values(|s: String| s@),
            settings.default.name@,
        ) && spec_contains_name(ns@.map_values(|s: String| s@), settings.fallback.name@)
            ==> (r matches Ok(m) && m@ == settings.fallback@),
        model_names matches Some(ns) && ns@.len() > 0 && !spec_contains_name(
            ns@.map_values(|s: String| s@),
            settings.default.name@,
        ) && !spec_contains_name(ns@.map_values(|s: String| s@), settings.fallback.name@) ==> (
        r matches Err(e) && e matches GPTConnectorError::ModelUnavailable {
            default_name,
            fallback_name,
        } && default_name@ == settings.default.name@ && fallback_name@
            == settings.fallback.name@),
{
    match model_names {
        Option::None => Result::Err(GPTConnectorError::CatalogFetchFailed),
        Option::Some(names) => {
            if names.len() == 0 {
                Result::Err(GPTConnectorError::CatalogFetchFailed)
            } else if contains_name(names, &settings.default.name) {
                Result::Ok(settings.default.clone())
            } else if contains_name(names, &settings.fallback.name) {
                Result::Ok(settings.fallback.clone())
            } else {
                Result::Err(
                    GPTConnectorError::ModelUnavailable {
                        default_name: settings.default.name.clone(),
                        fallback_name: settings.fallback.name.clone(),
                    },
                )
            }
        },
    }
}

} // verus!
