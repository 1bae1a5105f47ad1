//! Setting and removing values at paths through characters and containers.
use vstd::prelude::*;
use crate::error::PslError;
use crate::parser::Expr;
use crate::semantics::{
    container_in, put_container, remove_from_container, remove_from_nested_container,
    remove_in_nested_path, remove_in_path, remove_via_path, set_in_container,
    set_in_nested_container, set_in_nested_path, set_in_path, set_via_path,
};
use crate::text::push_str;
use crate::value::{
    entries_model, entry_model, find_entry, find_key, insert_entry, lemma_entries_model,
    lemma_entries_update, lemma_find_from, remove_entry, Value, ValueV,
};

verus! {

pub type Entries = Vec<(String, Value)>;


/// The runtime error `message + name + suffix`.
pub fn runtime_error(message: &str, name: &str, suffix: &str) -> (e: PslError)
    ensures
        e@ == crate::semantics::rerr(message@ + name@ + suffix@),
{
    let mut m = String::from_str(message);
    push_str(&mut m, name);
    push_str(&mut m, suffix);
    PslError::RuntimeError(m)
}

pub proof fn lemma_reinsert(s: Seq<(String, Value)>, i: int, e: (String, Value))
    requires
        0 <= i < s.len(),
    ensures
        entries_model(s.remove(i).insert(i, e)) == entries_model(s).update(i, entry_model(e)),
{
    assert(s.remove(i).insert(i, e) =~= s.update(i, e));
    lemma_entries_update(s, i, e);
}

pub proof fn lemma_put_same(m: Seq<(Seq<char>, ValueV)>, name: Seq<char>, inner: Seq<(Seq<char>, ValueV)>)
    requires
        container_in(m, name) == Some(inner),
    ensures
        put_container(m, name, inner) == m,
{
    lemma_find_from(m, name, 0);
    let i = find_key(m, name)->0;
    assert(m.update(i as int, (name, ValueV::Container(inner))) =~= m);
}

/// Takes the container named `name` out of `m`, with its position and key.
pub fn take_container(m: &mut Entries, name: &str) -> (r: Option<(usize, String, Entries)>)
    ensures
        match r {
            Some((i, k, inner)) => {
                &&& container_in(entries_model(old(m)@), name@) == Some(entries_model(inner@))
                &&& find_key(entries_model(old(m)@), name@) == Some(i as nat)
                &&& k@ == name@
                &&& i < old(m)@.len()
                &&& final(m)@ == old(m)@.remove(i as int)
            },
            None => {
                &&& container_in(entries_model(old(m)@), name@) is None
                &&& final(m)@ == old(m)@
            },
        },
{
    proof {
        lemma_entries_model(m@);
    }
    match find_entry(m, name) {
        None => None,
        Some(i) => {
            proof {
                lemma_find_from(entries_model(m@), name@, 0);
            }
            let ghost before = m@;
            let (k, v) = m.remove(i);
            match v {
                Value::Container(inner) => Some((i, k, inner)),
                other => {
                    m.insert(i, (k, other));
                    assert(m@ =~= before);
                    None
                },
            }
        },
    }
}

/// Puts a container taken by `take_container` back, with new entries.
pub fn restore_container(
    m: &mut Entries,
    Ghost(orig): Ghost<Seq<(String, Value)>>,
    i: usize,
    k: String,
    inner: Entries,
)
    requires
        i < orig.len(),
        old(m)@ == orig.remove(i as int),
        find_key(entries_model(orig), k@) == Some(i as nat),
    ensures
        entries_model(final(m)@) == put_container(entries_model(orig), k@, entries_model(inner@)),
{
    let ghost e = (k, Value::Container(inner));
    m.insert(i, (k, Value::Container(inner)));
    proof {
        assert(m@ == orig.remove(i as int).insert(i as int, e));
        lemma_reinsert(orig, i as int, e);
    }
}

pub open spec fn unit_result(
    r: Result<(), PslError>,
    s: Result<Seq<(Seq<char>, ValueV)>, crate::error::ErrorV>,
    before: Seq<(String, Value)>,
    after: Seq<(String, Value)>,
) -> bool {
    match r {
        Ok(()) => s == Ok::<Seq<(Seq<char>, ValueV)>, crate::error::ErrorV>(entries_model(after)),
        Err(e) => s == Err::<Seq<(Seq<char>, ValueV)>, crate::error::ErrorV>(e@) && entries_model(
            after,
        ) == entries_model(before),
    }
}

pub open spec fn removed_result(
    r: Result<Value, PslError>,
    s: Result<(Seq<(Seq<char>, ValueV)>, ValueV), crate::error::ErrorV>,
    before: Seq<(String, Value)>,
    after: Seq<(String, Value)>,
) -> bool {
    match r {
        Ok(v) => s == Ok::<(Seq<(Seq<char>, ValueV)>, ValueV), crate::error::ErrorV>(
            (entries_model(after), v.model()),
        ),
        Err(e) => s == Err::<(Seq<(Seq<char>, ValueV)>, ValueV), crate::error::ErrorV>(e@)
            && entries_model(after) == entries_model(before),
    }
}

/// Sets `value` at `path` inside the container entries `m`.
pub fn set_in_container_exec(m: &mut Entries, path: &Expr, value: Value) -> (r: Result<(), PslError>)
    ensures
        unit_result(r, set_in_container(entries_model(old(m)@), path@, value@), old(m)@, final(m)@),
    decreases path,
{
    proof {
        reveal_with_fuel(Expr::model, 2);
    }
    match path {
        Expr::Attribute(name) => {
            insert_entry(m, name.clone(), value);
            Ok(())
        },
        Expr::From { base, path: next } => match &**base {
            Expr::Container(cn) => {
                let ghost orig = m@;
                match take_container(m, cn.as_str()) {
                    None => Err(runtime_error("Container ", cn.as_str(), " not found")),
                    Some((i, k, inner)) => {
                        let mut inner = inner;
                        let ghost inner0 = inner@;
                        let r = set_in_container_exec(&mut inner, next, value);
                        restore_container(m, Ghost(orig), i, k, inner);
                        proof {
                            if r is Err {
                                lemma_put_same(entries_model(orig), cn@, entries_model(inner0));
                            }
                        }
                        r
                    },
                }
            },
            _ => Err(PslError::RuntimeError(String::from_str("Invalid nested path"))),
        },
        _ => Err(PslError::RuntimeError(String::from_str("Invalid path"))),
    }
}

/// Sets `value` at `final_path` inside what `inner_path` leads to from `m`.
pub fn set_in_nested_container_exec(
    m: &mut Entries,
    inner_path: &Expr,
    final_path: &Expr,
    value: Value,
) -> (r: Result<(), PslError>)
    ensures
        unit_result(
            r,
            set_in_nested_container(entries_model(old(m)@), inner_path@, final_path@, value@),
            old(m)@,
            final(m)@,
        ),
    decreases inner_path,
{
    proof {
        reveal_with_fuel(Expr::model, 2);
    }
    match inner_path {
        Expr::Container(cn) => {
            let ghost orig = m@;
            match take_container(m, cn.as_str()) {
                None => Err(runtime_error("Container ", cn.as_str(), " not found")),
                Some((i, k, inner)) => {
                    let mut inner = inner;
                    let ghost inner0 = inner@;
                    let r = set_in_container_exec(&mut inner, final_path, value);
                    restore_container(m, Ghost(orig), i, k, inner);
                    proof {
                        if r is Err {
                            lemma_put_same(entries_model(orig), cn@, entries_model(inner0));
                        }
                    }
                    r
                },
            }
        },
        Expr::From { base, path: next } => match &**base {
            Expr::Container(cn) => {
                let ghost orig = m@;
                match take_container(m, cn.as_str()) {
                    None => Err(runtime_error("Container ", cn.as_str(), " not found")),
                    Some((i, k, inner)) => {
                        let mut inner = inner;
                        let ghost inner0 = inner@;
                        let r = set_in_nested_container_exec(&mut inner, next, final_path, value);
                        restore_container(m, Ghost(orig), i, k, inner);
                        proof {
                            if r is Err {
                                lemma_put_same(entries_model(orig), cn@, entries_model(inner0));
                            }
                        }
                        r
                    },
                }
            },
            _ => Err(PslError::RuntimeError(String::from_str("Invalid nested path"))),
        },
        _ => Err(PslError::RuntimeError(String::from_str("Invalid inner path"))),
    }
}

/// Applies `set_in_container_exec` (when `nested` is absent) or
/// `set_in_nested_container_exec` inside the container `ctn` of the
/// character `cn`.
fn set_in_character_container(
    g: &mut Entries,
    cn: &str,
    ctn: &str,
    nested: Option<&Expr>,
    final_path: &Expr,
    value: Value,
) -> (r: Result<(), PslError>)
    ensures
        unit_result(
            r,
            match container_in(entries_model(old(g)@), cn@) {
                Some(cm) => match container_in(cm, ctn@) {
                    Some(im) => match (match nested {
                        Some(n) => set_in_nested_container(im, n@, final_path@, value@),
                        None => set_in_container(im, final_path@, value@),
                    }) {
                        Ok(im2) => Ok(put_container(entries_model(old(g)@), cn@, put_container(cm, ctn@, im2))),
                        Err(e) => Err(e),
                    },
                    None => Err(crate::semantics::container_missing(ctn@)),
                },
                None => Err(crate::semantics::character_missing(cn@)),
            },
            old(g)@,
            final(g)@,
        ),
{
    let ghost orig = g@;
    match take_container(g, cn) {
        None => Err(runtime_error("Character ", cn, " not found")),
        Some((i, k, char_map)) => {
            let mut char_map = char_map;
            let ghost cm0 = char_map@;
            let r = match take_container(&mut char_map, ctn) {
                None => Err(runtime_error("Container ", ctn, " not found")),
                Some((j, k2, inner)) => {
                    let mut inner = inner;
                    let ghost inner0 = inner@;
                    let r = match nested {
                        Some(n) => set_in_nested_container_exec(&mut inner, n, final_path, value),
                        None => set_in_container_exec(&mut inner, final_path, value),
                    };
                    restore_container(&mut char_map, Ghost(cm0), j, k2, inner);
                    proof {
                        if r is Err {
                            lemma_put_same(entries_model(cm0), ctn@, entries_model(inner0));
                        }
                    }
                    r
                },
            };
            let ghost cm1 = char_map@;
            restore_container(g, Ghost(orig), i, k, char_map);
            proof {
                if r is Err {
                    lemma_put_same(entries_model(orig), cn@, entries_model(cm0));
                }
            }
            r
        },
    }
}

/// Sets `value` at `path` inside the character `cn`.
pub fn set_in_path_exec(g: &mut Entries, cn: &str, path: &Expr, value: Value) -> (r: Result<(), PslError>)
    ensures
        unit_result(r, set_in_path(entries_model(old(g)@), cn@, path@, value@), old(g)@, final(g)@),
{
    proof {
        reveal_with_fuel(Expr::model, 2);
    }
    match path {
        Expr::Attribute(a) => {
            let ghost orig = g@;
            match take_container(g, cn) {
                None => Err(runtime_error("Character ", cn, " not found")),
                Some((i, k, map)) => {
                    let mut map = map;
                    insert_entry(&mut map, a.clone(), value);
                    restore_container(g, Ghost(orig), i, k, map);
                    Ok(())
                },
            }
        },
        Expr::From { base, path: next } => match &**base {
            Expr::Container(ctn) => set_in_character_container(g, cn, ctn.as_str(), None, next, value),
            _ => Err(PslError::RuntimeError(String::from_str("Invalid path base"))),
        },
        _ => Err(PslError::RuntimeError(String::from_str("Invalid path in set_in_path"))),
    }
}

/// Sets `value` at `final_path` inside what `inner_path` leads to from the
/// character `cn`.
pub fn set_in_nested_path_exec(
    g: &mut Entries,
    cn: &str,
    inner_path: &Expr,
    final_path: &Expr,
    value: Value,
) -> (r: Result<(), PslError>)
    ensures
        unit_result(
            r,
            set_in_nested_path(entries_model(old(g)@), cn@, inner_path@, final_path@, value@),
            old(g)@,
            final(g)@,
        ),
{
    proof {
        reveal_with_fuel(Expr::model, 2);
    }
    match inner_path {
        Expr::Container(ctn) => set_in_character_container(g, cn, ctn.as_str(), None, final_path, value),
        Expr::From { base, path: next } => match &**base {
            Expr::Container(ctn) => set_in_character_container(
                g,
                cn,
                ctn.as_str(),
                Some(&**next),
                final_path,
                value,
            ),
            _ => Err(PslError::RuntimeError(String::from_str("Invalid nested path"))),
        },
        _ => Err(PslError::RuntimeError(String::from_str("Invalid inner path"))),
    }
}

/// Sets `value` at the place `[[from: base]: path]` names.
pub fn set_via_path_exec(g: &mut Entries, base: &Expr, path: &Expr, value: Value) -> (r: Result<(), PslError>)
    ensures
        unit_result(r, set_via_path(entries_model(old(g)@), base@, path@, value@), old(g)@, final(g)@),
{
    proof {
        reveal_with_fuel(Expr::model, 2);
    }
    match base {
        Expr::Character(cn) => set_in_path_exec(g, cn.as_str(), path, value),
        Expr::From { base: ib, path: ip } => match &**ib {
            Expr::Character(cn) => set_in_nested_path_exec(g, cn.as_str(), ip, path, value),
            _ => Err(PslError::RuntimeError(String::from_str("Complex nested base not supported"))),
        },
        _ => Err(PslError::RuntimeError(String::from_str("Invalid base in set path"))),
    }
}

/// Removes the entry at `path` inside the container entries `m`.
pub fn remove_from_container_exec(m: &mut Entries, path: &Expr) -> (r: Result<Value, PslError>)
    ensures
        removed_result(r, remove_from_container(entries_model(old(m)@), path@), old(m)@, final(m)@),
    decreases path,
{
    proof {
        reveal_with_fuel(Expr::model, 2);
    }
    match path {
        Expr::Attribute(name) => match remove_entry(m, name.as_str()) {
            Some(v) => Ok(v),
            None => Err(runtime_error("Attribute ", name.as_str(), " not found")),
        },
        Expr::From { base, path: next } => match &**base {
            Expr::Container(cn) => {
                let ghost orig = m@;
                match take_container(m, cn.as_str()) {
                    None => Err(runtime_error("Container ", cn.as_str(), " not found")),
                    Some((i, k, inner)) => {
                        let mut inner = inner;
                        let ghost inner0 = inner@;
                        let r = remove_from_container_exec(&mut inner, next);
                        restore_container(m, Ghost(orig), i, k, inner);
                        proof {
                            if r is Err {
                                lemma_put_same(entries_model(orig), cn@, entries_model(inner0));
                            }
                        }
                        r
                    },
                }
            },
            _ => Err(PslError::RuntimeError(String::from_str("Invalid nested path"))),
        },
        _ => Err(PslError::RuntimeError(String::from_str("Invalid path"))),
    }
}

/// Removes the entry at `final_path` inside what `inner_path` leads to from
/// `m`.
pub fn remove_from_nested_container_exec(m: &mut Entries, inner_path: &Expr, final_path: &Expr) -> (r:
    Result<Value, PslError>)
    ensures
        removed_result(
            r,
            remove_from_nested_container(entries_model(old(m)@), inner_path@, final_path@),
            old(m)@,
            final(m)@,
        ),
    decreases inner_path,
{
    proof {
        reveal_with_fuel(Expr::model, 2);
    }
    match inner_path {
        Expr::Container(cn) => {
            let ghost orig = m@;
            match take_container(m, cn.as_str()) {
                None => Err(runtime_error("Container ", cn.as_str(), " not found")),
                Some((i, k, inner)) => {
                    let mut inner = inner;
                    let ghost inner0 = inner@;
                    let r = remove_from_container_exec(&mut inner, final_path);
                    restore_container(m, Ghost(orig), i, k, inner);
                    proof {
                        if r is Err {
                            lemma_put_same(entries_model(orig), cn@, entries_model(inner0));
                        }
                    }
                    r
                },
            }
        },
        Expr::From { base, path: next } => match &**base {
            Expr::Container(cn) => {
                let ghost orig = m@;
                match take_container(m, cn.as_str()) {
                    None => Err(runtime_error("Container ", cn.as_str(), " not found")),
                    Some((i, k, inner)) => {
                        let mut inner = inner;
                        let ghost inner0 = inner@;
                        let r = remove_from_nested_container_exec(&mut inner, next, final_path);
                        restore_container(m, Ghost(orig), i, k, inner);
                        proof {
                            if r is Err {
                                lemma_put_same(entries_model(orig), cn@, entries_model(inner0));
                            }
                        }
                        r
                    },
                }
            },
            _ => Err(PslError::RuntimeError(String::from_str("Invalid nested path"))),
        },
        _ => Err(PslError::RuntimeError(String::from_str("Invalid inner path"))),
    }
}

/// Applies a removal inside the container `ctn` of the character `cn`.
fn remove_in_character_container(
    g: &mut Entries,
    cn: &str,
    ctn: &str,
    nested: Option<&Expr>,
    final_path: &Expr,
) -> (r: Result<Value, PslError>)
    ensures
        removed_result(
            r,
            match container_in(entries_model(old(g)@), cn@) {
                Some(cm) => match container_in(cm, ctn@) {
                    Some(im) => match (match nested {
                        Some(n) => remove_from_nested_container(im, n@, final_path@),
                        None => remove_from_container(im, final_path@),
                    }) {
                        Ok((im2, v)) => Ok(
                            (put_container(entries_model(old(g)@), cn@, put_container(cm, ctn@, im2)), v),
                        ),
                        Err(e) => Err(e),
                    },
                    None => Err(crate::semantics::container_missing(ctn@)),
                },
                None => Err(crate::semantics::character_missing(cn@)),
            },
            old(g)@,
            final(g)@,
        ),
{
    let ghost orig = g@;
    match take_container(g, cn) {
        None => Err(runtime_error("Character ", cn, " not found")),
        Some((i, k, char_map)) => {
            let mut char_map = char_map;
            let ghost cm0 = char_map@;
            let r = match take_container(&mut char_map, ctn) {
                None => Err(runtime_error("Container ", ctn, " not found")),
                Some((j, k2, inner)) => {
                    let mut inner = inner;
                    let ghost inner0 = inner@;
                    let r = match nested {
                        Some(n) => remove_from_nested_container_exec(&mut inner, n, final_path),
                        None => remove_from_container_exec(&mut inner, final_path),
                    };
                    restore_container(&mut char_map, Ghost(cm0), j, k2, inner);
                    proof {
                        if r is Err {
                            lemma_put_same(entries_model(cm0), ctn@, entries_model(inner0));
                        }
                    }
                    r
                },
            };
            restore_container(g, Ghost(orig), i, k, char_map);
            proof {
                if r is Err {
                    lemma_put_same(entries_model(orig), cn@, entries_model(cm0));
                }
            }
            r
        },
    }
}

/// Removes the entry at `path` inside the character `cn`.
pub fn remove_in_path_exec(g: &mut Entries, cn: &str, path: &Expr) -> (r: Result<Value, PslError>)
    ensures
        removed_result(r, remove_in_path(entries_model(old(g)@), cn@, path@), old(g)@, final(g)@),
{
    proof {
        reveal_with_fuel(Expr::model, 2);
    }
    match path {
        Expr::Attribute(a) => {
            let ghost orig = g@;
            match take_container(g, cn) {
                None => Err(runtime_error("Character ", cn, " not found")),
                Some((i, k, map)) => {
                    let mut map = map;
                    let ghost map0 = map@;
                    let r = remove_entry(&mut map, a.as_str());
                    restore_container(g, Ghost(orig), i, k, map);
                    match r {
                        Some(v) => Ok(v),
                        None => {
                            proof {
                                lemma_put_same(entries_model(orig), cn@, entries_model(map0));
                            }
                            Err(runtime_error("Attribute ", a.as_str(), " not found"))
                        },
                    }
                },
            }
        },
        Expr::From { base, path: next } => match &**base {
            Expr::Container(ctn) => remove_in_character_container(g, cn, ctn.as_str(), None, next),
            _ => Err(PslError::RuntimeError(String::from_str("Invalid path base"))),
        },
        _ => Err(PslError::RuntimeError(String::from_str("Invalid path"))),
    }
}

/// Removes the entry at `final_path` inside what `inner_path` leads to from
/// the character `cn`.
pub fn remove_in_nested_path_exec(g: &mut Entries, cn: &str, inner_path: &Expr, final_path: &Expr) -> (r:
    Result<Value, PslError>)
    ensures
        removed_result(
            r,
            remove_in_nested_path(entries_model(old(g)@), cn@, inner_path@, final_path@),
            old(g)@,
            final(g)@,
        ),
{
    proof {
        reveal_with_fuel(Expr::model, 2);
    }
    match inner_path {
        Expr::Container(ctn) => remove_in_character_container(g, cn, ctn.as_str(), None, final_path),
        Expr::From { base, path: next } => match &**base {
            Expr::Container(ctn) => remove_in_character_container(
                g,
                cn,
                ctn.as_str(),
                Some(&**next),
                final_path,
            ),
            _ => Err(PslError::RuntimeError(String::from_str("Invalid nested path"))),
        },
        _ => Err(PslError::RuntimeError(String::from_str("Invalid inner path"))),
    }
}

/// Removes the entry at the place `[[from: base]: path]` names.
pub fn remove_via_path_exec(g: &mut Entries, base: &Expr, path: &Expr) -> (r: Result<Value, PslError>)
    ensures
        removed_result(r, remove_via_path(entries_model(old(g)@), base@, path@), old(g)@, final(g)@),
{
    proof {
        reveal_with_fuel(Expr::model, 2);
    }
    match base {
        Expr::Character(cn) => remove_in_path_exec(g, cn.as_str(), path),
        Expr::From { base: ib, path: ip } => match &**ib {
            Expr::Character(cn) => remove_in_nested_path_exec(g, cn.as_str(), ip, path),
            _ => Err(
                PslError::RuntimeError(String::from_str("Complex nested paths not yet supported")),
            ),
        },
        _ => Err(PslError::RuntimeError(String::from_str("Invalid base in remove path"))),
    }
}

} // verus!
