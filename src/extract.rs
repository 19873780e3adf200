//! Extraction of values from a parsed document, by key or by value shape.
use vstd::prelude::*;
use vstd::string::*;
use crate::json::{JsonView, Node, node_of, opt_view, pairs_view, value_view};
use crate::text::{decimal, decimal_string, hash_shaped, is_hash_shaped};

verus! {

/// The first string found under `key`, walking objects member by member and
/// arrays item by item, each member checked before its value is searched.
pub open spec fn key_in(j: JsonView, key: Seq<char>) -> Option<Seq<char>>
    decreases j, 1int,
{
    match j {
        JsonView::Object(m) => key_in_entries(m, key, 0),
        JsonView::Array(a) => key_in_items(a, key, 0),
        _ => None,
    }
}

/// `key_in` over the members of an object from the `i`-th on.
pub open spec fn key_in_entries(m: Seq<(Seq<char>, JsonView)>, key: Seq<char>, i: int) -> Option<Seq<char>>
    decreases m, m.len() - i,
{
    if 0 <= i < m.len() {
        if m[i].0 == key && m[i].1 is Str {
            Some(m[i].1->Str_0)
        } else {
            match key_in(m[i].1, key) {
                Some(s) => Some(s),
                None => key_in_entries(m, key, i + 1),
            }
        }
    } else {
        None
    }
}

/// `key_in` over the items of an array from the `i`-th on.
pub open spec fn key_in_items(a: Seq<JsonView>, key: Seq<char>, i: int) -> Option<Seq<char>>
    decreases a, a.len() - i,
{
    if 0 <= i < a.len() {
        match key_in(a[i], key) {
            Some(s) => Some(s),
            None => key_in_items(a, key, i + 1),
        }
    } else {
        None
    }
}

/// Finds the first string stored under `key` anywhere in the document.
pub fn find_string_by_key(v: &serde_json::Value, key: &String) -> (r: Option<String>)
    ensures
        opt_view(r) == key_in(value_view(*v), key@),
    decreases value_view(*v),
{
    match node_of(v) {
        Node::Object(m) => {
            let ghost mv = m@.map_values(|p: (String, serde_json::Value)| (p.0@, value_view(p.1)));
            let mut i: usize = 0;
            while i < m.len()
                invariant
                    value_view(*v) == JsonView::Object(mv),
                    mv == m@.map_values(|p: (String, serde_json::Value)| (p.0@, value_view(p.1))),
                    i <= m.len(),
                    key_in(value_view(*v), key@) == key_in_entries(mv, key@, i as int),
                decreases m.len() - i,
            {
                let k = &m[i].0;
                let vv = &m[i].1;
                assert(mv[i as int] == (k@, value_view(*vv)));
                if k.eq(key) {
                    if let Node::Str(s) = node_of(vv) {
                        return Some(s);
                    }
                }
                proof {
                    assert(decreases_to!(value_view(*v) => mv));
                    assert(decreases_to!(mv => mv[i as int]));
                }
                let found = find_string_by_key(vv, key);
                if found.is_some() {
                    return found;
                }
                i = i + 1;
            }
            None
        },
        Node::Array(a) => {
            let ghost av = a@.map_values(|x: serde_json::Value| value_view(x));
            let mut i: usize = 0;
            while i < a.len()
                invariant
                    value_view(*v) == JsonView::Array(av),
                    av == a@.map_values(|x: serde_json::Value| value_view(x)),
                    i <= a.len(),
                    key_in(value_view(*v), key@) == key_in_items(av, key@, i as int),
                decreases a.len() - i,
            {
                assert(av[i as int] == value_view(a@[i as int]));
                proof {
                    assert(decreases_to!(value_view(*v) => av));
                }
                let found = find_string_by_key(&a[i], key);
                if found.is_some() {
                    return found;
                }
                i = i + 1;
            }
            None
        },
        _ => None,
    }
}

/// The path of the `i`-th item of an array found at `path`: `path[i]`.
pub open spec fn item_path(path: Seq<char>, i: nat) -> Seq<char> {
    path + seq!['['] + decimal(i) + seq![']']
}

/// The path of member `k` of an object found at `path`: `path.k`, or `k` at the root.
pub open spec fn member_path(path: Seq<char>, k: Seq<char>) -> Seq<char> {
    if path.len() == 0 {
        k
    } else {
        path + seq!['.'] + k
    }
}

/// Every hash-shaped string of the document with its path, in document order.
pub open spec fn hashes_in(path: Seq<char>, j: JsonView) -> Seq<(Seq<char>, Seq<char>)>
    decreases j, 1int,
{
    match j {
        JsonView::Str(s) => if hash_shaped(s) {
            seq![(path, s)]
        } else {
            seq![]
        },
        JsonView::Array(a) => hashes_in_items(path, a, 0),
        JsonView::Object(m) => hashes_in_entries(path, m, 0),
        _ => seq![],
    }
}

/// `hashes_in` over the items of an array from the `i`-th on.
pub open spec fn hashes_in_items(path: Seq<char>, a: Seq<JsonView>, i: int) -> Seq<(Seq<char>, Seq<char>)>
    decreases a, a.len() - i,
{
    if 0 <= i < a.len() {
        hashes_in(item_path(path, i as nat), a[i]) + hashes_in_items(path, a, i + 1)
    } else {
        seq![]
    }
}

/// `hashes_in` over the members of an object from the `i`-th on.
pub open spec fn hashes_in_entries(path: Seq<char>, m: Seq<(Seq<char>, JsonView)>, i: int) -> Seq<(Seq<char>, Seq<char>)>
    decreases m, m.len() - i,
{
    if 0 <= i < m.len() {
        hashes_in(member_path(path, m[i].0), m[i].1) + hashes_in_entries(path, m, i + 1)
    } else {
        seq![]
    }
}

fn item_path_string(path: &String, i: usize) -> (r: String)
    ensures
        r@ == item_path(path@, i as nat),
{
    proof {
        reveal_strlit("[");
        reveal_strlit("]");
    }
    let mut s = path.clone();
    s.append("[");
    let d = decimal_string(i);
    s.append(d.as_str());
    s.append("]");
    s
}

fn member_path_string(path: &String, k: &String) -> (r: String)
    ensures
        r@ == member_path(path@, k@),
{
    proof {
        reveal_strlit(".");
    }
    if path.as_str().unicode_len() == 0 {
        k.clone()
    } else {
        let mut s = path.clone();
        s.append(".");
        s.append(k.as_str());
        s
    }
}

/// Appends to `out` every hash-shaped string under `v` with its path, in
/// document order; `prefix` is the path of `v` itself.
pub fn collect_hashes(prefix: &String, v: &serde_json::Value, out: &mut Vec<(String, String)>)
    ensures
        pairs_view(final(out)@) == pairs_view(old(out)@) + hashes_in(prefix@, value_view(*v)),
    decreases value_view(*v),
{
    match node_of(v) {
        Node::Str(s) => {
            if is_hash_shaped(s.as_str()) {
                out.push((prefix.clone(), s));
            }
            assert(pairs_view(out@) =~= pairs_view(old(out)@) + hashes_in(prefix@, value_view(*v)));
        },
        Node::Array(a) => {
            let ghost av = a@.map_values(|x: serde_json::Value| value_view(x));
            let mut i: usize = 0;
            while i < a.len()
                invariant
                    value_view(*v) == JsonView::Array(av),
                    av == a@.map_values(|x: serde_json::Value| value_view(x)),
                    i <= a.len(),
                    pairs_view(out@) + hashes_in_items(prefix@, av, i as int)
                        == pairs_view(old(out)@) + hashes_in(prefix@, value_view(*v)),
                decreases a.len() - i,
            {
                let p = item_path_string(prefix, i);
                let ghost before = pairs_view(out@);
                assert(av[i as int] == value_view(a@[i as int]));
                proof {
                    assert(decreases_to!(value_view(*v) => av));
                }
                collect_hashes(&p, &a[i], out);
                assert(before + hashes_in_items(prefix@, av, i as int) =~= pairs_view(out@)
                    + hashes_in_items(prefix@, av, i + 1));
                i = i + 1;
            }
            assert(pairs_view(out@) =~= pairs_view(out@) + hashes_in_items(prefix@, av, i as int));
        },
        Node::Object(m) => {
            let ghost mv = m@.map_values(|p: (String, serde_json::Value)| (p.0@, value_view(p.1)));
            let mut i: usize = 0;
            while i < m.len()
                invariant
                    value_view(*v) == JsonView::Object(mv),
                    mv == m@.map_values(|p: (String, serde_json::Value)| (p.0@, value_view(p.1))),
                    i <= m.len(),
                    pairs_view(out@) + hashes_in_entries(prefix@, mv, i as int)
                        == pairs_view(old(out)@) + hashes_in(prefix@, value_view(*v)),
                decreases m.len() - i,
            {
                let p = member_path_string(prefix, &m[i].0);
                let ghost before = pairs_view(out@);
                assert(mv[i as int] == (m@[i as int].0@, value_view(m@[i as int].1)));
                proof {
                    assert(decreases_to!(value_view(*v) => mv));
                    assert(decreases_to!(mv => mv[i as int]));
                }
                collect_hashes(&p, &m[i].1, out);
                assert(before + hashes_in_entries(prefix@, mv, i as int) =~= pairs_view(out@)
                    + hashes_in_entries(prefix@, mv, i + 1));
                i = i + 1;
            }
            assert(pairs_view(out@) =~= pairs_view(out@) + hashes_in_entries(prefix@, mv, i as int));
        },
        _ => {
            assert(pairs_view(out@) =~= pairs_view(old(out)@) + hashes_in(prefix@, value_view(*v)));
        },
    }
}

} // verus!
