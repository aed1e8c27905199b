//! The compiled-in catalog of page routes and API permissions that a transfer may target.
use vstd::prelude::*;

use crate::error::{AppError, AppResult};
use crate::strset::StrMap;
use crate::text::{chars_of, contains_char, lower_seq, owned, push_str, str_eq, trim, trimmed};
use crate::transfer::keys::normalize_stable_key;

verus! {

/// A catalog value is accepted when it is non-empty and carries no surrounding whitespace.
pub open spec fn catalog_value_ok(v: Seq<char>) -> bool {
    v.len() > 0 && trim(v) == v
}

/// No two values coincide once ASCII case is ignored.
pub open spec fn distinct_without_case(vs: Seq<Seq<char>>) -> bool {
    forall|i: int, j: int| 0 <= i < j < vs.len() ==> lower_seq(#[trigger] vs[i]) != lower_seq(#[trigger] vs[j])
}

pub open spec fn string_views(v: Seq<String>) -> Seq<Seq<char>> {
    v.map_values(|s: String| s@)
}

fn value_ok(v: &str) -> (r: bool)
    ensures
        r == catalog_value_ok(v@),
{
    let t = trimmed(v);
    chars_of(v).len() > 0 && str_eq(t.as_str(), v)
}

/// Builds the API-permission catalog: each value keyed by its lower-cased form.
///
/// Fails with a configuration error when the list is empty, a value is blank or padded, or two
/// values differ only in ASCII case.
pub fn validate_catalog_values(values: Vec<String>, label: &str) -> (r: AppResult<StrMap<String>>)
    ensures
        r is Ok <==> values@.len() > 0 && (forall|i: int|
            0 <= i < values@.len() ==> catalog_value_ok(#[trigger] values@[i]@)) && distinct_without_case(
            string_views(values@),
        ),
        r is Err ==> r->Err_0 is Config,
        r matches Ok(m) ==> m.wf() && m.entries@.len() == values@.len() && forall|i: int|
            0 <= i < values@.len() ==> m.get_spec(lower_seq(#[trigger] values@[i]@)) == Some(values@[i]),
{
    if values.len() == 0 {
        let mut msg = owned("编译期");
        push_str(&mut msg, label);
        push_str(&mut msg, "目录不能为空");
        return Err(AppError::Config(msg));
    }
    let mut catalog: StrMap<String> = StrMap::new();
    let mut i: usize = 0;
    while i < values.len()
        invariant
            i <= values.len(),
            catalog.wf(),
            catalog.entries@.len() == i,
            forall|k: int| 0 <= k < i ==> catalog_value_ok(#[trigger] values@[k]@),
            distinct_without_case(string_views(values@.take(i as int))),
            forall|k: int| 0 <= k < i ==> catalog.get_spec(lower_seq(#[trigger] values@[k]@)) == Some(
                values@[k],
            ),
            forall|key: Seq<char>| #[trigger] catalog.get_spec(key) is Some ==> exists|k: int|
                0 <= k < i && lower_seq(values@[k]@) == key,
        decreases values.len() - i,
    {
        let v = &values[i];
        if !value_ok(v.as_str()) {
            let mut msg = owned("编译期");
            push_str(&mut msg, label);
            push_str(&mut msg, "目录包含空值或首尾空白");
            return Err(AppError::Config(msg));
        }
        let key = normalize_stable_key(v.as_str());
        let ghost prev = catalog.get_spec(key@);
        if !catalog.insert_new(key, v.clone()) {
            proof {
                let k = choose|k: int| 0 <= k < i && lower_seq(values@[k]@) == lower_seq(v@);
                assert(string_views(values@)[k] == values@[k]@);
                assert(string_views(values@)[i as int] == values@[i as int]@);
            }
            let mut msg = owned("编译期");
            push_str(&mut msg, label);
            push_str(&mut msg, "目录包含重复项目");
            return Err(AppError::Config(msg));
        }
        proof {
            let t = string_views(values@.take(i + 1 as int));
            assert forall|a: int, b: int| 0 <= a < b < t.len() implies lower_seq(#[trigger] t[a])
                != lower_seq(#[trigger] t[b]) by {
                if b == i {
                    assert(t[a] == values@[a]@);
                    assert(t[b] == values@[i as int]@);
                    if lower_seq(t[a]) == lower_seq(t[b]) {
                        assert(prev is Some);
                    }
                } else {
                    assert(t[a] == string_views(values@.take(i as int))[a]);
                    assert(t[b] == string_views(values@.take(i as int))[b]);
                }
            }
        }
        i = i + 1;
    }
    proof {
        assert(values@.take(values.len() as int) =~= values@);
    }
    Ok(catalog)
}

/// A page route may be registered as a directory (`M`) or a page (`C`).
pub open spec fn page_menu_type(t: Seq<char>) -> bool {
    t == "M"@ || t == "C"@
}

fn is_page_menu_type(t: &str) -> (r: bool)
    ensures
        r == page_menu_type(t@),
{
    str_eq(t, "M") || str_eq(t, "C")
}

pub open spec fn route_keys(values: Seq<(String, String)>) -> Seq<Seq<char>> {
    values.map_values(|p: (String, String)| p.0@)
}

/// Builds the page-route catalog: each `(route_key, menu_type)` keyed by the lower-cased route.
///
/// Fails with a configuration error when a route is blank or padded, a menu type is neither
/// `M` nor `C`, two routes differ only in ASCII case, or the list is empty.
pub fn validate_route_catalog(values: Vec<(String, String)>) -> (r: AppResult<StrMap<(String, String)>>)
    ensures
        r is Ok <==> values@.len() > 0 && (forall|i: int|
            0 <= i < values@.len() ==> catalog_value_ok(#[trigger] values@[i].0@) && page_menu_type(
                values@[i].1@,
            )) && distinct_without_case(route_keys(values@)),
        r is Err ==> r->Err_0 is Config,
        r matches Ok(m) ==> m.wf() && m.entries@.len() == values@.len() && forall|i: int|
            0 <= i < values@.len() ==> m.get_spec(lower_seq(#[trigger] values@[i].0@)) == Some(
                values@[i],
            ),
{
    let mut catalog: StrMap<(String, String)> = StrMap::new();
    let mut i: usize = 0;
    while i < values.len()
        invariant
            i <= values.len(),
            catalog.wf(),
            catalog.entries@.len() == i,
            forall|k: int|
                0 <= k < i ==> catalog_value_ok(#[trigger] values@[k].0@) && page_menu_type(
                    values@[k].1@,
                ),
            distinct_without_case(route_keys(values@.take(i as int))),
            forall|k: int| 0 <= k < i ==> catalog.get_spec(lower_seq(#[trigger] values@[k].0@)) == Some(
                values@[k],
            ),
            forall|key: Seq<char>| #[trigger] catalog.get_spec(key) is Some ==> exists|k: int|
                0 <= k < i && lower_seq(values@[k].0@) == key,
        decreases values.len() - i,
    {
        let route_key = &values[i].0;
        let menu_type = &values[i].1;
        if !value_ok(route_key.as_str()) {
            return Err(AppError::Config(owned("编译期页面路由目录包含空值或首尾空白")));
        }
        if !is_page_menu_type(menu_type.as_str()) {
            let mut msg = owned("编译期页面路由 ");
            push_str(&mut msg, route_key.as_str());
            push_str(&mut msg, " 的菜单类型无效");
            return Err(AppError::Config(msg));
        }
        let key = normalize_stable_key(route_key.as_str());
        let ghost prev = catalog.get_spec(key@);
        if !catalog.insert_new(key, (route_key.clone(), menu_type.clone())) {
            proof {
                let k = choose|k: int| 0 <= k < i && lower_seq(values@[k].0@) == lower_seq(route_key@);
                assert(route_keys(values@)[k] == values@[k].0@);
                assert(route_keys(values@)[i as int] == values@[i as int].0@);
            }
            return Err(AppError::Config(owned("编译期页面路由目录包含重复项目")));
        }
        proof {
            let t = route_keys(values@.take(i + 1 as int));
            assert forall|a: int, b: int| 0 <= a < b < t.len() implies lower_seq(#[trigger] t[a])
                != lower_seq(#[trigger] t[b]) by {
                if b == i {
                    assert(t[a] == values@[a].0@);
                    assert(t[b] == values@[i as int].0@);
                    if lower_seq(t[a]) == lower_seq(t[b]) {
                        assert(prev is Some);
                    }
                } else {
                    assert(t[a] == route_keys(values@.take(i as int))[a]);
                    assert(t[b] == route_keys(values@.take(i as int))[b]);
                }
            }
        }
        i = i + 1;
    }
    if values.len() == 0 {
        return Err(AppError::Config(owned("编译期页面路由目录不能为空")));
    }
    proof {
        assert(values@.take(values.len() as int) =~= values@);
    }
    Ok(catalog)
}

/// The page routes and API permissions that this build actually serves.
///
/// `page_routes` maps a lower-cased route key to its canonical spelling and menu type;
/// `api_permission_codes` maps a lower-cased code to its canonical spelling.
pub struct TenantConfigTargetCatalog {
    pub page_routes: StrMap<(String, String)>,
    pub api_permission_codes: StrMap<String>,
}

impl TenantConfigTargetCatalog {
    pub open spec fn wf(&self) -> bool {
        self.page_routes.wf() && self.api_permission_codes.wf()
    }

    /// Validates both catalogs; every API permission code must contain a `:`.
    pub fn new(page_routes: Vec<(String, String)>, api_permission_codes: Vec<String>) -> (r: AppResult<
        TenantConfigTargetCatalog,
    >)
        ensures
            r is Ok <==> {
                &&& page_routes@.len() > 0
                &&& forall|i: int|
                    0 <= i < page_routes@.len() ==> catalog_value_ok(#[trigger] page_routes@[i].0@)
                        && page_menu_type(page_routes@[i].1@)
                &&& distinct_without_case(route_keys(page_routes@))
                &&& api_permission_codes@.len() > 0
                &&& forall|i: int|
                    0 <= i < api_permission_codes@.len() ==> catalog_value_ok(
                        #[trigger] api_permission_codes@[i]@,
                    ) && api_permission_codes@[i]@.contains(':')
                &&& distinct_without_case(string_views(api_permission_codes@))
            },
            r is Err ==> r->Err_0 is Config,
            r matches Ok(c) ==> {
                &&& c.wf()
                &&& forall|i: int|
                    0 <= i < page_routes@.len() ==> c.page_routes.get_spec(
                        lower_seq(#[trigger] page_routes@[i].0@),
                    ) == Some(page_routes@[i])
                &&& forall|i: int|
                    0 <= i < api_permission_codes@.len() ==> c.api_permission_codes.get_spec(
                        lower_seq(#[trigger] api_permission_codes@[i]@),
                    ) == Some(api_permission_codes@[i])
                &&& c.page_routes.entries@.len() == page_routes@.len()
                &&& c.api_permission_codes.entries@.len() == api_permission_codes@.len()
            },
    {
        let routes = validate_route_catalog(page_routes)?;
        let mut all_have_colon = true;
        let mut i: usize = 0;
        while i < api_permission_codes.len()
            invariant
                i <= api_permission_codes.len(),
                all_have_colon == forall|k: int|
                    0 <= k < i ==> (#[trigger] api_permission_codes@[k])@.contains(':'),
            decreases api_permission_codes.len() - i,
        {
            if !contains_char(api_permission_codes[i].as_str(), ':') {
                all_have_colon = false;
            }
            i = i + 1;
        }
        let codes = validate_catalog_values(api_permission_codes, "API 权限")?;
        if !all_have_colon {
            return Err(AppError::Config(owned("编译期 API 权限目录包含格式无效的权限码")));
        }
        Ok(TenantConfigTargetCatalog { page_routes: routes, api_permission_codes: codes })
    }
}

} // verus!
