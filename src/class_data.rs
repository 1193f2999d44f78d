//! Build-time construction of the class dispatch table: from the engine's class
//! list to one entry per retained class, holding the class's hash and the
//! marker component types for the class and each of its ancestors.
use crate::naming::{is_valid_ident, pascal_name, to_pascal_case, valid_ident};
use crate::special_cases::{is_godot_type_deleted, type_deleted, BuildTarget};
use crate::text::str_eq;
use vstd::prelude::*;

verus! {

/// The characters of an optional string.
pub open spec fn opt_view(o: Option<String>) -> Option<Seq<char>> {
    match o {
        Some(s) => Some(s@),
        None => None,
    }
}

/// The characters of each string of a list.
pub open spec fn names_view(v: Seq<String>) -> Seq<Seq<char>> {
    v.map_values(|s: String| s@)
}

fn clone_opt(o: &Option<String>) -> (r: Option<String>)
    ensures
        opt_view(r) == opt_view(*o),
{
    match o {
        Some(s) => Some(s.clone()),
        None => None,
    }
}

/// One entry of the class list of the engine's API dump.
pub enum ApiClassEntry {
    /// A record, with its `name` and `inherits` fields where they hold strings.
    Class { name: Option<String>, inherits: Option<String> },
    /// An entry that is not a record; it is passed over.
    Other,
}

/// Why the class list cannot be read.
#[derive(Debug, Clone, Copy, PartialEq, Eq)]
pub enum ApiDumpError {
    /// The record at this position of the class list has no string `name`.
    MissingName { index: usize },
}

/// A class and the name of its direct parent, if it has one.
pub struct ClassParent {
    pub name: String,
    pub inherits: Option<String>,
}

/// A parent map as a list of (class, parent) pairs.
pub open spec fn parents_view(m: Seq<ClassParent>) -> Seq<(Seq<char>, Option<Seq<char>>)> {
    m.map_values(|c: ClassParent| (c.name@, opt_view(c.inherits)))
}

/// No class appears twice.
pub open spec fn unique_classes(m: Seq<(Seq<char>, Option<Seq<char>>)>) -> bool {
    forall|i: int, j: int|
        0 <= i < m.len() && 0 <= j < m.len() && #[trigger] m[i].0 == #[trigger] m[j].0 ==> i == j
}

/// Whether the map has an entry for `name`.
pub open spec fn has_class(m: Seq<(Seq<char>, Option<Seq<char>>)>, name: Seq<char>) -> bool {
    exists|i: int| 0 <= i < m.len() && #[trigger] m[i].0 == name
}

/// The position of `name` in the map.
pub open spec fn class_pos(m: Seq<(Seq<char>, Option<Seq<char>>)>, name: Seq<char>) -> int {
    choose|i: int| 0 <= i < m.len() && #[trigger] m[i].0 == name
}

/// The map with `name`'s parent set to `parent`: in place if `name` is
/// there, else as a new last entry.
pub open spec fn upsert(
    m: Seq<(Seq<char>, Option<Seq<char>>)>,
    name: Seq<char>,
    parent: Option<Seq<char>>,
) -> Seq<(Seq<char>, Option<Seq<char>>)> {
    if has_class(m, name) {
        m.update(class_pos(m, name), (name, parent))
    } else {
        m.push((name, parent))
    }
}

/// The parent map of a class list: each named record, in order, sets its
/// class's parent.
pub open spec fn inherit_map_of(dump: Seq<ApiClassEntry>) -> Seq<(Seq<char>, Option<Seq<char>>)>
    decreases dump.len(),
{
    if dump.len() == 0 {
        Seq::empty()
    } else {
        let m = inherit_map_of(dump.drop_last());
        match dump.last() {
            ApiClassEntry::Class { name: Some(n), inherits } => upsert(m, n@, opt_view(inherits)),
            _ => m,
        }
    }
}

/// Whether the entry at `i` is a record without a name.
pub open spec fn nameless(dump: Seq<ApiClassEntry>, i: int) -> bool {
    dump[i] matches ApiClassEntry::Class { name: None, .. }
}

proof fn lemma_upsert_unique(
    m: Seq<(Seq<char>, Option<Seq<char>>)>,
    name: Seq<char>,
    parent: Option<Seq<char>>,
)
    requires
        unique_classes(m),
    ensures
        unique_classes(upsert(m, name, parent)),
        has_class(upsert(m, name, parent), name),
{
    let u = upsert(m, name, parent);
    if has_class(m, name) {
        let p = class_pos(m, name);
        assert(u[p].0 == name);
        assert forall|i: int, j: int|
            0 <= i < u.len() && 0 <= j < u.len() && #[trigger] u[i].0 == #[trigger] u[j].0 implies i
            == j by {
            if i == p {
                assert(m[j].0 == name || j == p);
            } else if j == p {
                assert(m[i].0 == name);
            } else {
                assert(m[i].0 == m[j].0);
            }
        }
    } else {
        assert(u[m.len() as int].0 == name);
        assert forall|i: int, j: int|
            0 <= i < u.len() && 0 <= j < u.len() && #[trigger] u[i].0 == #[trigger] u[j].0 implies i
            == j by {
            if i < m.len() && j < m.len() {
                assert(m[i].0 == m[j].0);
            } else if i < m.len() {
                assert(m[i].0 == name);
            } else if j < m.len() {
                assert(m[j].0 == name);
            }
        }
    }
}

/// Finds the position of `name` in `m`.
fn find_class(m: &Vec<ClassParent>, name: &str) -> (r: Option<usize>)
    requires
        unique_classes(parents_view(m@)),
    ensures
        r is Some <==> has_class(parents_view(m@), name@),
        r is Some ==> r->0 == class_pos(parents_view(m@), name@) && r->0 < m@.len(),
{
    let ghost pv = parents_view(m@);
    let mut i: usize = 0;
    while i < m.len()
        invariant
            pv == parents_view(m@),
            unique_classes(pv),
            i <= m@.len(),
            forall|k: int| 0 <= k < i ==> pv[k].0 != name@,
        decreases m@.len() - i,
    {
        if str_eq(m[i].name.as_str(), name) {
            assert(pv[i as int].0 == name@);
            assert(has_class(pv, name@));
            let ghost p = class_pos(pv, name@);
            assert(pv[p].0 == pv[i as int].0);
            return Some(i);
        }
        i = i + 1;
    }
    assert(!has_class(pv, name@)) by {
        if has_class(pv, name@) {
            let p = class_pos(pv, name@);
            assert(pv[p].0 == name@);
        }
    }
    None
}

/// The parent map of the class list `classes`, with each class once.
pub fn generate_inherit_map(classes: &Vec<ApiClassEntry>) -> (r: Result<
    Vec<ClassParent>,
    ApiDumpError,
>)
    ensures
        match r {
            Ok(m) => {
                &&& forall|i: int| 0 <= i < classes@.len() ==> !nameless(classes@, i)
                &&& parents_view(m@) == inherit_map_of(classes@)
                &&& unique_classes(parents_view(m@))
            },
            Err(ApiDumpError::MissingName { index }) => {
                &&& index < classes@.len()
                &&& nameless(classes@, index as int)
                &&& forall|i: int| 0 <= i < index ==> !nameless(classes@, i)
            },
        },
{
    let mut m: Vec<ClassParent> = Vec::new();
    let mut i: usize = 0;
    while i < classes.len()
        invariant
            i <= classes@.len(),
            parents_view(m@) == inherit_map_of(classes@.take(i as int)),
            unique_classes(parents_view(m@)),
            forall|k: int| 0 <= k < i ==> !nameless(classes@, k),
        decreases classes@.len() - i,
    {
        let ghost before = parents_view(m@);
        assert(classes@.take(i + 1).drop_last() =~= classes@.take(i as int));
        match &classes[i] {
            ApiClassEntry::Class { name: Some(name), inherits } => {
                proof {
                    lemma_upsert_unique(before, name@, opt_view(*inherits));
                }
                match find_class(&m, name.as_str()) {
                    Some(j) => {
                        m.set(j, ClassParent { name: name.clone(), inherits: clone_opt(inherits) });
                    },
                    None => {
                        m.push(ClassParent { name: name.clone(), inherits: clone_opt(inherits) });
                    },
                }
                assert(parents_view(m@) =~= upsert(before, name@, opt_view(*inherits)));
            },
            ApiClassEntry::Class { name: None, .. } => {
                return Err(ApiDumpError::MissingName { index: i });
            },
            ApiClassEntry::Other => {},
        }
        i = i + 1;
    }
    assert(classes@.take(classes@.len() as int) =~= classes@);
    Ok(m)
}


/// The parent of `c` in the map; a class that is not in the map has none.
pub open spec fn parent_of(m: Seq<(Seq<char>, Option<Seq<char>>)>, c: Seq<char>) -> Option<
    Seq<char>,
> {
    if has_class(m, c) {
        m[class_pos(m, c)].1
    } else {
        None
    }
}

/// The ancestors reached from the parent `p` by following parent links, most
/// derived first, where that takes at most `fuel` links; `None` where it
/// takes more.
pub open spec fn ancestry(
    m: Seq<(Seq<char>, Option<Seq<char>>)>,
    p: Option<Seq<char>>,
    fuel: nat,
) -> Option<Seq<Seq<char>>>
    decreases fuel,
{
    match p {
        None => Some(Seq::empty()),
        Some(a) => if fuel == 0 {
            None
        } else {
            match ancestry(m, parent_of(m, a), (fuel - 1) as nat) {
                Some(rest) => Some(seq![a] + rest),
                None => None,
            }
        },
    }
}

/// The ancestors of a class whose parent is `p`. A chain through distinct
/// classes has at most one class per entry of the map (the last one may be
/// a class that the map does not hold), so a longer one can only come from a
/// cycle.
pub open spec fn ancestors(m: Seq<(Seq<char>, Option<Seq<char>>)>, p: Option<Seq<char>>) -> Option<
    Seq<Seq<char>>,
> {
    ancestry(m, p, m.len())
}

fn ancestry_of(m: &Vec<ClassParent>, parent: &Option<String>) -> (r: Option<Vec<String>>)
    requires
        unique_classes(parents_view(m@)),
    ensures
        r is Some <==> ancestors(parents_view(m@), opt_view(*parent)) is Some,
        r is Some ==> names_view(r->0@) == ancestors(parents_view(m@), opt_view(*parent))->0,
{
    let ghost pv = parents_view(m@);
    let mut list: Vec<String> = Vec::new();
    let mut cur = clone_opt(parent);
    let mut fuel: usize = m.len();
    while cur.is_some()
        invariant
            pv == parents_view(m@),
            unique_classes(pv),
            fuel <= m@.len(),
            match ancestry(pv, opt_view(cur), fuel as nat) {
                Some(rest) => ancestors(pv, opt_view(*parent)) == Some(names_view(list@) + rest),
                None => ancestors(pv, opt_view(*parent)) is None,
            },
        decreases fuel + (if cur is Some { 1int } else { 0int }),
    {
        let a = match cur {
            Some(a) => a,
            None => String::new(),
        };
        if fuel == 0 {
            return None;
        }
        let next = match find_class(m, a.as_str()) {
            Some(j) => clone_opt(&m[j].inherits),
            None => None,
        };
        proof {
            assert(opt_view(next) == parent_of(pv, a@));
            let rest = ancestry(pv, opt_view(next), (fuel - 1) as nat);
            if rest is Some {
                assert(names_view(list@.push(a)) =~= names_view(list@) + seq![a@]);
                assert(names_view(list@) + (seq![a@] + rest->0) =~= names_view(list@.push(a))
                    + rest->0);
            }
        }
        list.push(a);
        cur = next;
        fuel = fuel - 1;
    }
    assert(names_view(list@) + Seq::<Seq<char>>::empty() =~= names_view(list@));
    Some(list)
}

/// A retained class with its ancestors, most derived first.
pub struct ClassChain {
    pub name: String,
    pub inherits: Vec<String>,
}

/// The classes of the map that a build for `target` keeps, in order.
pub open spec fn retained(m: Seq<(Seq<char>, Option<Seq<char>>)>, target: BuildTarget) -> Seq<
    (Seq<char>, Option<Seq<char>>),
>
    decreases m.len(),
{
    if m.len() == 0 {
        Seq::empty()
    } else if type_deleted(m.last().0, target) {
        retained(m.drop_last(), target)
    } else {
        retained(m.drop_last(), target).push(m.last())
    }
}

/// Why the dispatch table cannot be built.
#[derive(Debug, PartialEq, Eq)]
pub enum ClassDataError {
    /// Following parent links from this class does not end: the hierarchy
    /// has a cycle.
    CyclicHierarchy { class: String },
}

/// Whether every class of `r` has a finite chain of ancestors in `m`.
pub open spec fn all_chains_end(
    m: Seq<(Seq<char>, Option<Seq<char>>)>,
    r: Seq<(Seq<char>, Option<Seq<char>>)>,
) -> bool {
    forall|i: int| 0 <= i < r.len() ==> (#[trigger] ancestors(m, r[i].1)) is Some
}

/// For each class that a build for `target` keeps, its name and its
/// ancestors, in the order of the map.
pub fn generate_class_data(inherit_map: &Vec<ClassParent>, target: &BuildTarget) -> (r: Result<
    Vec<ClassChain>,
    ClassDataError,
>)
    requires
        unique_classes(parents_view(inherit_map@)),
    ensures
        ({
            let m = parents_view(inherit_map@);
            let kept = retained(m, *target);
            match r {
                Ok(v) => {
                    &&& all_chains_end(m, kept)
                    &&& v@.len() == kept.len()
                    &&& forall|i: int|
                        0 <= i < v@.len() ==> (#[trigger] v@[i]).name@ == kept[i].0 && names_view(
                            v@[i].inherits@,
                        ) == ancestors(m, kept[i].1)->0
                },
                Err(ClassDataError::CyclicHierarchy { class }) => {
                    &&& !all_chains_end(m, kept)
                    &&& exists|i: int|
                        0 <= i < kept.len() && kept[i].0 == class@ && (#[trigger] ancestors(
                            m,
                            kept[i].1,
                        )) is None
                },
            }
        }),
{
    let ghost m = parents_view(inherit_map@);
    let mut out: Vec<ClassChain> = Vec::new();
    let mut i: usize = 0;
    while i < inherit_map.len()
        invariant
            m == parents_view(inherit_map@),
            unique_classes(m),
            i <= inherit_map@.len(),
            retained(m.take(i as int), *target).len() == out@.len(),
            all_chains_end(m, retained(m.take(i as int), *target)),
            forall|k: int|
                0 <= k < out@.len() ==> (#[trigger] out@[k]).name@ == retained(
                    m.take(i as int),
                    *target,
                )[k].0 && names_view(out@[k].inherits@) == ancestors(
                    m,
                    retained(m.take(i as int), *target)[k].1,
                )->0,
        decreases inherit_map@.len() - i,
    {
        let ghost before = retained(m.take(i as int), *target);
        assert(m.take(i + 1).drop_last() =~= m.take(i as int));
        assert(m.take(i + 1).last() == m[i as int]);
        let entry = &inherit_map[i];
        if !is_godot_type_deleted(entry.name.as_str(), target) {
            match ancestry_of(inherit_map, &entry.inherits) {
                Some(inherits) => {
                    out.push(ClassChain { name: entry.name.clone(), inherits });
                },
                None => {
                    proof {
                        let kept = retained(m, *target);
                        lemma_retained_prefix(m, i as int + 1, *target);
                        let k = before.len() as int;
                        assert(kept[k] == m[i as int]);
                        assert(ancestors(m, kept[k].1) is None);
                    }
                    return Err(ClassDataError::CyclicHierarchy { class: entry.name.clone() });
                },
            }
        }
        i = i + 1;
    }
    assert(m.take(inherit_map@.len() as int) =~= m);
    Ok(out)
}

proof fn lemma_retained_prefix(
    m: Seq<(Seq<char>, Option<Seq<char>>)>,
    n: int,
    target: BuildTarget,
)
    requires
        0 <= n <= m.len(),
    ensures
        retained(m.take(n), target).len() <= retained(m, target).len(),
        forall|k: int|
            0 <= k < retained(m.take(n), target).len() ==> #[trigger] retained(m, target)[k]
                == retained(m.take(n), target)[k],
    decreases m.len() - n,
{
    if n < m.len() {
        lemma_retained_prefix(m, n + 1, target);
        assert(m.take(n + 1).drop_last() =~= m.take(n));
    } else {
        assert(m.take(n) =~= m);
    }
}


/// The marker component types for a class `name` with ancestors `inherits`:
/// the class alone, under its own name, if it has no ancestors; else the class
/// and each ancestor, most derived first, under their Rust type names.
pub open spec fn components_for(name: Seq<char>, inherits: Seq<Seq<char>>) -> Seq<Seq<char>> {
    if inherits.len() == 0 {
        seq![name]
    } else {
        (seq![name] + inherits).map_values(|c: Seq<char>| pascal_name(c))
    }
}

/// Whether the names that become Rust type names are identifiers.
pub open spec fn convertible(name: Seq<char>, inherits: Seq<Seq<char>>) -> bool {
    inherits.len() == 0 || (valid_ident(name) && forall|k: int|
        0 <= k < inherits.len() ==> valid_ident(#[trigger] inherits[k]))
}

/// One arm of the dispatch table: the hash of a class name and the marker
/// components that a node of that class receives.
pub struct DispatchEntry {
    pub hash: u64,
    pub components: Vec<String>,
}

/// Why the dispatch entries cannot be produced.
#[derive(Debug, PartialEq, Eq)]
pub enum CodegenError {
    /// The engine returned another number of hashes than there are classes.
    HashCountMismatch { classes: usize, hashes: usize },
    /// A class name that must become a Rust type name is no identifier.
    InvalidClassName { name: String },
}

/// Whether every chain can be converted.
pub open spec fn all_convertible(chains: Seq<ClassChain>) -> bool {
    forall|i: int|
        0 <= i < chains.len() ==> convertible(
            (#[trigger] chains[i]).name@,
            names_view(chains[i].inherits@),
        )
}

fn components_of(chain: &ClassChain) -> (r: Option<Vec<String>>)
    ensures
        r is Some <==> convertible(chain.name@, names_view(chain.inherits@)),
        r is Some ==> names_view(r->0@) == components_for(
            chain.name@,
            names_view(chain.inherits@),
        ),
{
    let ghost inh = names_view(chain.inherits@);
    if chain.inherits.len() == 0 {
        let mut v: Vec<String> = Vec::new();
        v.push(chain.name.clone());
        assert(names_view(v@) =~= seq![chain.name@]);
        return Some(v);
    }
    if !is_valid_ident(chain.name.as_str()) {
        return None;
    }
    let ghost all = seq![chain.name@] + inh;
    let mut v: Vec<String> = Vec::new();
    v.push(to_pascal_case(chain.name.as_str()));
    let mut k: usize = 0;
    while k < chain.inherits.len()
        invariant
            inh == names_view(chain.inherits@),
            all == seq![chain.name@] + inh,
            valid_ident(chain.name@),
            k <= chain.inherits@.len(),
            v@.len() == k + 1,
            forall|j: int| 0 <= j < k ==> valid_ident(#[trigger] inh[j]),
            forall|j: int| 0 <= j <= k ==> (#[trigger] v@[j])@ == pascal_name(all[j]),
        decreases chain.inherits@.len() - k,
    {
        let c = &chain.inherits[k];
        assert(inh[k as int] == c@);
        if !is_valid_ident(c.as_str()) {
            return None;
        }
        v.push(to_pascal_case(c.as_str()));
        k = k + 1;
    }
    assert(names_view(v@) =~= all.map_values(|c: Seq<char>| pascal_name(c)));
    Some(v)
}

/// The dispatch entries for `chains`, whose class names the engine hashed, in
/// the same order, to `hashes`.
pub fn generate_cases(chains: &Vec<ClassChain>, hashes: &Vec<u64>) -> (r: Result<
    Vec<DispatchEntry>,
    CodegenError,
>)
    ensures
        match r {
            Ok(v) => {
                &&& hashes@.len() == chains@.len()
                &&& all_convertible(chains@)
                &&& v@.len() == chains@.len()
                &&& forall|i: int|
                    0 <= i < v@.len() ==> (#[trigger] v@[i]).hash == hashes@[i] && names_view(
                        v@[i].components@,
                    ) == components_for(chains@[i].name@, names_view(chains@[i].inherits@))
            },
            Err(CodegenError::HashCountMismatch { classes, hashes: n }) => {
                &&& hashes@.len() != chains@.len()
                &&& classes == chains@.len()
                &&& n == hashes@.len()
            },
            Err(CodegenError::InvalidClassName { .. }) => {
                &&& hashes@.len() == chains@.len()
                &&& !all_convertible(chains@)
            },
        },
{
    if hashes.len() != chains.len() {
        return Err(CodegenError::HashCountMismatch { classes: chains.len(), hashes: hashes.len() });
    }
    let mut entries: Vec<DispatchEntry> = Vec::new();
    let mut i: usize = 0;
    while i < chains.len()
        invariant
            hashes@.len() == chains@.len(),
            i <= chains@.len(),
            entries@.len() == i,
            forall|j: int|
                0 <= j < i ==> convertible(
                    (#[trigger] chains@[j]).name@,
                    names_view(chains@[j].inherits@),
                ),
            forall|j: int|
                0 <= j < i ==> (#[trigger] entries@[j]).hash == hashes@[j] && names_view(
                    entries@[j].components@,
                ) == components_for(chains@[j].name@, names_view(chains@[j].inherits@)),
        decreases chains@.len() - i,
    {
        match components_of(&chains[i]) {
            Some(components) => {
                entries.push(DispatchEntry { hash: hashes[i], components });
            },
            None => {
                return Err(CodegenError::InvalidClassName { name: chains[i].name.clone() });
            },
        }
        i = i + 1;
    }
    Ok(entries)
}

/// Each dispatch entry starts with the class itself and ends with its most
/// distant ancestor, and holds one component for the class and one for each
/// ancestor.
pub proof fn lemma_components_span_chain(name: Seq<char>, inherits: Seq<Seq<char>>)
    ensures
        components_for(name, inherits).len() == inherits.len() + 1,
        inherits.len() == 0 ==> components_for(name, inherits)[0] == name,
        inherits.len() > 0 ==> components_for(name, inherits)[0] == pascal_name(name),
        inherits.len() > 0 ==> components_for(name, inherits).last() == pascal_name(
            inherits.last(),
        ),
        forall|k: int|
            0 <= k < inherits.len() ==> #[trigger] components_for(name, inherits)[k + 1]
                == pascal_name(inherits[k]),
{
}

/// The dispatch entry of a class `name` whose parent is `parent`: its first
/// component is the class itself, each further one is the next class along
/// the parent links, the last is the ancestor that has no parent, and there
/// is one component per link followed, plus one for the class.
pub proof fn lemma_dispatch_entry_follows_hierarchy(
    m: Seq<(Seq<char>, Option<Seq<char>>)>,
    name: Seq<char>,
    parent: Option<Seq<char>>,
)
    requires
        ancestors(m, parent) is Some,
    ensures
        ({
            let a = ancestors(m, parent)->0;
            let cs = components_for(name, a);
            &&& cs.len() == a.len() + 1
            &&& cs[0] == if a.len() == 0 {
                name
            } else {
                pascal_name(name)
            }
            &&& parent is Some ==> a[0] == parent->0 && cs[1] == pascal_name(parent->0)
            &&& forall|k: int| 0 <= k < a.len() - 1 ==> parent_of(m, #[trigger] a[k]) == Some(a[k + 1])
            &&& a.len() > 0 ==> parent_of(m, a.last()) is None && cs.last() == pascal_name(a.last())
        }),
{
    lemma_ancestry_follows_links(m, parent, m.len());
    lemma_components_span_chain(name, ancestors(m, parent)->0);
    let a = ancestors(m, parent)->0;
    if a.len() > 0 {
        assert(components_for(name, a)[0int + 1] == pascal_name(a[0]));
    }
}

/// An ancestor chain starts at the parent, takes one parent link per step and
/// ends at a class without a parent: its length is the number of links
/// followed.
pub proof fn lemma_ancestry_follows_links(
    m: Seq<(Seq<char>, Option<Seq<char>>)>,
    p: Option<Seq<char>>,
    fuel: nat,
)
    requires
        ancestry(m, p, fuel) is Some,
    ensures
        ({
            let a = ancestry(m, p, fuel)->0;
            &&& p is None <==> a.len() == 0
            &&& p is Some ==> a[0] == p->0
            &&& forall|k: int| 0 <= k < a.len() - 1 ==> parent_of(m, #[trigger] a[k]) == Some(a[k + 1])
            &&& a.len() > 0 ==> parent_of(m, a.last()) is None
            &&& a.len() <= fuel
        }),
    decreases fuel,
{
    if let Some(x) = p {
        let next = parent_of(m, x);
        lemma_ancestry_follows_links(m, next, (fuel - 1) as nat);
        let rest = ancestry(m, next, (fuel - 1) as nat)->0;
        let a = ancestry(m, p, fuel)->0;
        assert(a == seq![x] + rest);
        assert forall|k: int| 0 <= k < a.len() - 1 implies parent_of(m, #[trigger] a[k]) == Some(
            a[k + 1],
        ) by {
            if k > 0 {
                assert(a[k] == rest[k - 1]);
                assert(a[k + 1] == rest[k]);
            }
        }
        if rest.len() > 0 {
            assert(a.last() == rest.last());
        }
    }
}

} // verus!
