//! Components authored in the engine's editor: the registry of component
//! types that can be attached by name, and the reader for the per-node
//! metadata that lists them with their field values.
use crate::text::str_eq;
use vstd::prelude::*;
use vstd::string::*;

verus! {

/// A value of the engine's variant type, as far as the metadata reader looks
/// into it.
pub enum MetaValue {
    /// A string.
    Text(String),
    /// An interned string name.
    Name(String),
    /// An array.
    Array(Vec<MetaValue>),
    /// A dictionary, as its key/value pairs in order.
    Dictionary(Vec<(MetaValue, MetaValue)>),
    /// Any other value.
    Other,
}

/// Why a node's component metadata is malformed. Any of these drops the whole
/// list: no component of the node is applied.
#[derive(Debug, Clone, Copy, PartialEq, Eq)]
pub enum MetadataError {
    NotArray,
    EntryNotDictionary,
    EntryLacksName,
    EntryNameInvalid,
}

impl MetadataError {
    /// The reason, in words.
    pub fn message(&self) -> (r: &'static str)
        ensures
            r@ == match self {
                MetadataError::NotArray => "not an array"@,
                MetadataError::EntryNotDictionary => "entry not a dictionary"@,
                MetadataError::EntryLacksName => "entry dictionary lacks \"name\""@,
                MetadataError::EntryNameInvalid => "entry dictionary's \"name\" is neither StringName nor String"@,
            },
    {
        match self {
            MetadataError::NotArray => "not an array",
            MetadataError::EntryNotDictionary => "entry not a dictionary",
            MetadataError::EntryLacksName => "entry dictionary lacks \"name\"",
            MetadataError::EntryNameInvalid => {
                "entry dictionary's \"name\" is neither StringName nor String"
            },
        }
    }
}

/// The value under the string key `key`: that of the first pair whose key is
/// that string.
pub open spec fn dict_get(d: Seq<(MetaValue, MetaValue)>, key: Seq<char>) -> Option<MetaValue>
    decreases d.len(),
{
    if d.len() == 0 {
        None
    } else if d[0].0 matches MetaValue::Text(k) && k@ == key {
        Some(d[0].1)
    } else {
        dict_get(d.skip(1), key)
    }
}

fn dict_get_exec<'a>(d: &'a Vec<(MetaValue, MetaValue)>, key: &str) -> (r: Option<&'a MetaValue>)
    ensures
        r is Some <==> dict_get(d@, key@) is Some,
        r is Some ==> *r->0 == dict_get(d@, key@)->0,
{
    let mut i: usize = 0;
    assert(d@.skip(0) =~= d@);
    while i < d.len()
        invariant
            i <= d@.len(),
            dict_get(d@, key@) == dict_get(d@.skip(i as int), key@),
        decreases d@.len() - i,
    {
        assert(d@.skip(i as int)[0] == d@[i as int]);
        assert(d@.skip(i as int).skip(1) =~= d@.skip(i + 1));
        if let MetaValue::Text(k) = &d[i].0 {
            if str_eq(k.as_str(), key) {
                return Some(&d[i].1);
            }
        }
        i = i + 1;
    }
    None
}

/// A string field map: each key once, in the order keys first appear.
pub open spec fn set_field(
    m: Seq<(Seq<char>, Seq<char>)>,
    key: Seq<char>,
    value: Seq<char>,
) -> Seq<(Seq<char>, Seq<char>)> {
    if exists|i: int| 0 <= i < m.len() && #[trigger] m[i].0 == key {
        let i = choose|i: int| 0 <= i < m.len() && #[trigger] m[i].0 == key;
        m.update(i, (key, value))
    } else {
        m.push((key, value))
    }
}

/// The string form of a field value, where it has one.
pub open spec fn string_of(v: MetaValue) -> Option<Seq<char>> {
    match v {
        MetaValue::Text(s) => Some(s@),
        MetaValue::Name(s) => Some(s@),
        _ => None,
    }
}

/// The field map of a dictionary: each pair with a string key and a string
/// value sets that field; a later pair for the same key wins.
pub open spec fn field_map(d: Seq<(MetaValue, MetaValue)>) -> Seq<(Seq<char>, Seq<char>)>
    decreases d.len(),
{
    if d.len() == 0 {
        Seq::empty()
    } else {
        let m = field_map(d.drop_last());
        match (d.last().0, string_of(d.last().1)) {
            (MetaValue::Text(k), Some(v)) => set_field(m, k@, v),
            _ => m,
        }
    }
}

pub open spec fn unique_keys(m: Seq<(Seq<char>, Seq<char>)>) -> bool {
    forall|i: int, j: int|
        0 <= i < m.len() && 0 <= j < m.len() && #[trigger] m[i].0 == #[trigger] m[j].0 ==> i == j
}

/// The characters of each key and value.
pub open spec fn fields_view(v: Seq<(String, String)>) -> Seq<(Seq<char>, Seq<char>)> {
    v.map_values(|p: (String, String)| (p.0@, p.1@))
}

fn string_value(v: &MetaValue) -> (r: Option<String>)
    ensures
        r is Some <==> string_of(*v) is Some,
        r is Some ==> r->0@ == string_of(*v)->0,
{
    match v {
        MetaValue::Text(s) => Some(s.clone()),
        MetaValue::Name(s) => Some(s.clone()),
        _ => None,
    }
}

fn find_key(values: &Vec<(String, String)>, key: &str) -> (r: Option<usize>)
    ensures
        r is Some ==> r->0 < values@.len() && fields_view(values@)[r->0 as int].0 == key@,
        r is None ==> forall|k: int| 0 <= k < values@.len() ==> fields_view(values@)[k].0 != key@,
{
    let mut j: usize = 0;
    while j < values.len()
        invariant
            j <= values@.len(),
            forall|k: int| 0 <= k < j ==> fields_view(values@)[k].0 != key@,
        decreases values@.len() - j,
    {
        if str_eq(values[j].0.as_str(), key) {
            return Some(j);
        }
        j = j + 1;
    }
    None
}

/// The string fields of a dictionary.
pub fn convert_dictionary_to_string_string_map(dictionary: &Vec<(MetaValue, MetaValue)>) -> (r: Vec<
    (String, String),
>)
    ensures
        fields_view(r@) == field_map(dictionary@),
        unique_keys(fields_view(r@)),
{
    let mut values: Vec<(String, String)> = Vec::new();
    let mut i: usize = 0;
    while i < dictionary.len()
        invariant
            i <= dictionary@.len(),
            fields_view(values@) == field_map(dictionary@.take(i as int)),
            unique_keys(fields_view(values@)),
        decreases dictionary@.len() - i,
    {
        assert(dictionary@.take(i + 1).drop_last() =~= dictionary@.take(i as int));
        assert(dictionary@.take(i + 1).last() == dictionary@[i as int]);
        let ghost before = fields_view(values@);
        if let MetaValue::Text(key) = &dictionary[i].0 {
            if let Some(value) = string_value(&dictionary[i].1) {
                let found = find_key(&values, key.as_str());
                if let Some(j) = found {
                    proof {
                        let c = choose|c: int| 0 <= c < before.len() && #[trigger] before[c].0 == key@;
                        assert(before[c].0 == before[j as int].0);
                    }
                    values.set(j, (key.clone(), value));
                    assert(fields_view(values@) =~= set_field(before, key@, value@));
                } else {
                    proof {
                        assert(!exists|c: int| 0 <= c < before.len() && #[trigger] before[c].0 == key@);
                    }
                    values.push((key.clone(), value));
                    assert(fields_view(values@) =~= set_field(before, key@, value@));
                }
                assert(unique_keys(fields_view(values@))) by {
                    let after = fields_view(values@);
                    assert forall|a: int, b: int|
                        0 <= a < after.len() && 0 <= b < after.len() && #[trigger] after[a].0
                            == #[trigger] after[b].0 implies a == b by {
                        if a < before.len() && b < before.len() && after[a].0 != key@ {
                            assert(before[a].0 == before[b].0);
                        } else if a < before.len() && b < before.len() {
                        } else if a < before.len() {
                            assert(before[a].0 == key@);
                        } else if b < before.len() {
                            assert(before[b].0 == key@);
                        }
                    }
                }
            }
        }
        i = i + 1;
    }
    assert(dictionary@.take(dictionary@.len() as int) =~= dictionary@);
    values
}


/// One component of a node's metadata: its name and its string fields.
pub type ParsedComponent = (Seq<char>, Seq<(Seq<char>, Seq<char>)>);

/// The name of a metadata entry: a string name or a string; anything else
/// reads as empty.
pub open spec fn entry_name(v: MetaValue) -> Seq<char> {
    match v {
        MetaValue::Name(s) => s@,
        MetaValue::Text(s) => s@,
        _ => Seq::empty(),
    }
}

/// Reads one metadata entry: a dictionary with a non-empty `name` and, where
/// it is a dictionary, `data` for the fields.
pub open spec fn parse_entry(e: MetaValue) -> Result<ParsedComponent, MetadataError> {
    match e {
        MetaValue::Dictionary(d) => {
            let fields = match dict_get(d@, "data"@) {
                Some(MetaValue::Dictionary(data)) => field_map(data@),
                _ => Seq::empty(),
            };
            match dict_get(d@, "name"@) {
                None => Err(MetadataError::EntryLacksName),
                Some(n) => if entry_name(n).len() == 0 {
                    Err(MetadataError::EntryNameInvalid)
                } else {
                    Ok((entry_name(n), fields))
                },
            }
        },
        _ => Err(MetadataError::EntryNotDictionary),
    }
}

/// Reads the entries in order, stopping at the first malformed one.
pub open spec fn parse_entries(es: Seq<MetaValue>) -> Result<Seq<ParsedComponent>, MetadataError>
    decreases es.len(),
{
    if es.len() == 0 {
        Ok(Seq::empty())
    } else {
        match parse_entry(es[0]) {
            Err(e) => Err(e),
            Ok(p) => match parse_entries(es.skip(1)) {
                Ok(rest) => Ok(seq![p] + rest),
                Err(e) => Err(e),
            },
        }
    }
}

/// Reads a node's component metadata: an array of entries.
pub open spec fn parse_metadata(v: MetaValue) -> Result<Seq<ParsedComponent>, MetadataError> {
    match v {
        MetaValue::Array(es) => parse_entries(es@),
        _ => Err(MetadataError::NotArray),
    }
}

/// The characters of each parsed component.
pub open spec fn parsed_view(v: Seq<(String, Vec<(String, String)>)>) -> Seq<ParsedComponent> {
    v.map_values(|p: (String, Vec<(String, String)>)| (p.0@, fields_view(p.1@)))
}

pub open spec fn prefixed(
    done: Seq<ParsedComponent>,
    r: Result<Seq<ParsedComponent>, MetadataError>,
) -> Result<Seq<ParsedComponent>, MetadataError> {
    match r {
        Ok(rest) => Ok(done + rest),
        Err(e) => Err(e),
    }
}

fn parse_entry_exec(e: &MetaValue) -> (r: Result<(String, Vec<(String, String)>), MetadataError>)
    ensures
        match r {
            Ok(p) => parse_entry(*e) == Ok::<ParsedComponent, MetadataError>((p.0@, fields_view(p.1@))),
            Err(x) => parse_entry(*e) == Err::<ParsedComponent, MetadataError>(x),
        },
{
    proof {
        reveal_strlit("data");
        reveal_strlit("name");
    }
    match e {
        MetaValue::Dictionary(d) => {
            let fields = match dict_get_exec(d, "data") {
                Some(MetaValue::Dictionary(data)) => convert_dictionary_to_string_string_map(data),
                _ => {
                    let v: Vec<(String, String)> = Vec::new();
                    assert(fields_view(v@) =~= Seq::<(Seq<char>, Seq<char>)>::empty());
                    v
                },
            };
            match dict_get_exec(d, "name") {
                None => Err(MetadataError::EntryLacksName),
                Some(n) => {
                    let name = match n {
                        MetaValue::Name(s) => s.clone(),
                        MetaValue::Text(s) => s.clone(),
                        _ => String::new(),
                    };
                    if name.as_str().unicode_len() == 0 {
                        Err(MetadataError::EntryNameInvalid)
                    } else {
                        Ok((name, fields))
                    }
                },
            }
        },
        _ => Err(MetadataError::EntryNotDictionary),
    }
}

/// Reads a node's component metadata into (component name, fields) pairs, in
/// order. A malformed entry makes the whole list an error.
pub fn convert_component_data_variant_to_rust(variant: &MetaValue) -> (r: Result<
    Vec<(String, Vec<(String, String)>)>,
    MetadataError,
>)
    ensures
        match r {
            Ok(v) => parse_metadata(*variant) == Ok::<Seq<ParsedComponent>, MetadataError>(
                parsed_view(v@),
            ),
            Err(x) => parse_metadata(*variant) == Err::<Seq<ParsedComponent>, MetadataError>(x),
        },
{
    let component_data = match variant {
        MetaValue::Array(es) => es,
        _ => {
            return Err(MetadataError::NotArray);
        },
    };
    let mut result: Vec<(String, Vec<(String, String)>)> = Vec::new();
    let mut i: usize = 0;
    assert(component_data@.skip(0) =~= component_data@);
    assert(parsed_view(result@) + Seq::<ParsedComponent>::empty() =~= parsed_view(result@));
    assert(Seq::<ParsedComponent>::empty() + parsed_view(result@) =~= parsed_view(result@));
    while i < component_data.len()
        invariant
            i <= component_data@.len(),
            parse_metadata(*variant) == parse_entries(component_data@),
            parse_entries(component_data@) == prefixed(
                parsed_view(result@),
                parse_entries(component_data@.skip(i as int)),
            ),
        decreases component_data@.len() - i,
    {
        let ghost rest = component_data@.skip(i as int);
        assert(rest[0] == component_data@[i as int]);
        assert(rest.skip(1) =~= component_data@.skip(i + 1));
        match parse_entry_exec(&component_data[i]) {
            Ok(p) => {
                let ghost pv = (p.0@, fields_view(p.1@));
                let ghost before = parsed_view(result@);
                result.push(p);
                assert(parsed_view(result@) =~= before.push(pv));
                proof {
                    match parse_entries(component_data@.skip(i + 1)) {
                        Ok(tail) => {
                            assert(before + (seq![pv] + tail) =~= before.push(pv) + tail);
                        },
                        Err(_) => {},
                    }
                }
            },
            Err(x) => {
                assert(parse_entries(rest) == Err::<Seq<ParsedComponent>, MetadataError>(x));
                return Err(x);
            },
        }
        i = i + 1;
    }
    assert(component_data@.skip(component_data@.len() as int) =~= Seq::<MetaValue>::empty());
    assert(parsed_view(result@) + Seq::<ParsedComponent>::empty() =~= parsed_view(result@));
    Ok(result)
}

/// Whole-list rejection: where a later entry of the metadata is malformed,
/// the read fails, whatever the entries before it, so no component of the
/// node is applied and one error stands for the whole list.
pub proof fn lemma_malformed_entry_rejects_list(es: Seq<MetaValue>, k: int)
    requires
        0 <= k < es.len(),
        parse_entry(es[k]) is Err,
    ensures
        parse_entries(es) is Err,
    decreases k,
{
    if k > 0 {
        lemma_malformed_entry_rejects_list(es.skip(1), k - 1);
    }
}

/// An entry that is a dictionary without `name` is malformed.
pub proof fn lemma_nameless_entry_malformed(d: Vec<(MetaValue, MetaValue)>)
    requires
        dict_get(d@, "name"@) is None,
    ensures
        parse_entry(MetaValue::Dictionary(d)) == Err::<ParsedComponent, MetadataError>(
            MetadataError::EntryLacksName,
        ),
{
}


/// Describes one field of an editor component, for the editor's interface.
pub struct KissingComponentFieldData {
    pub name: String,
    pub type_string: String,
    pub description: Option<String>,
    pub default_value: Option<String>,
}

/// Describes an editor component: its name, documentation and fields.
pub struct KissingComponentData {
    pub name: String,
    pub docs: String,
    pub fields: Vec<KissingComponentFieldData>,
}

/// An editor component type: its description, and the function that
/// attaches it to an entity from its field values.
pub struct KissingComponent<F> {
    kissing_component_data: KissingComponentData,
    add_component_from_editor_fields: F,
}

impl<F> KissingComponent<F> {
    pub fn new(kissing_component_data: KissingComponentData, add_component_from_editor_fields: F) -> (r: Self)
        ensures
            r.data() == kissing_component_data,
            r.attach() == add_component_from_editor_fields,
    {
        KissingComponent { kissing_component_data, add_component_from_editor_fields }
    }

    pub closed spec fn data(&self) -> KissingComponentData {
        self.kissing_component_data
    }

    pub closed spec fn attach(&self) -> F {
        self.add_component_from_editor_fields
    }

    pub fn get_data(&self) -> (r: &KissingComponentData)
        ensures
            *r == self.data(),
    {
        &self.kissing_component_data
    }

    pub fn get_add_component_from_editor_fields(&self) -> (r: &F)
        ensures
            *r == self.attach(),
    {
        &self.add_component_from_editor_fields
    }
}

/// Why a component type cannot be registered.
#[derive(Debug, Clone, Copy, PartialEq, Eq)]
pub enum RegisterComponentError {
    /// A component type of the same name is registered already.
    DuplicateName,
}

/// The editor component types, each name at most once. It is filled once at
/// startup and read afterwards.
pub struct KissingComponentRegistry<F> {
    components: Vec<KissingComponent<F>>,
}

impl<F> KissingComponentRegistry<F> {
    /// The registered component types, in the order of registration.
    pub closed spec fn entries(&self) -> Seq<KissingComponent<F>> {
        self.components@
    }

    /// The component names, in the order of registration.
    pub open spec fn names(&self) -> Seq<Seq<char>> {
        self.entries().map_values(|c: KissingComponent<F>| c.data().name@)
    }

    /// No two component types share a name.
    pub open spec fn wf(&self) -> bool {
        forall|i: int, j: int|
            0 <= i < self.names().len() && 0 <= j < self.names().len() && #[trigger] self.names()[i]
                == #[trigger] self.names()[j] ==> i == j
    }

    pub fn new() -> (r: Self)
        ensures
            r.entries().len() == 0,
            r.wf(),
    {
        KissingComponentRegistry { components: Vec::new() }
    }

    /// The position of the component type named `name`.
    pub fn position(&self, name: &str) -> (r: Option<usize>)
        ensures
            r is Some <==> self.names().contains(name@),
            r is Some ==> r->0 < self.names().len() && self.names()[r->0 as int] == name@,
    {
        let mut i: usize = 0;
        while i < self.components.len()
            invariant
                i <= self.names().len(),
                forall|k: int| 0 <= k < i ==> self.names()[k] != name@,
            decreases self.names().len() - i,
        {
            if str_eq(self.components[i].kissing_component_data.name.as_str(), name) {
                assert(self.names()[i as int] == name@);
                return Some(i);
            }
            i = i + 1;
        }
        None
    }

    /// Adds a component type, unless one of the same name is there.
    pub fn register(&mut self, component: KissingComponent<F>) -> (r: Result<
        (),
        RegisterComponentError,
    >)
        requires
            old(self).wf(),
        ensures
            final(self).wf(),
            r is Ok <==> !old(self).names().contains(component.data().name@),
            r is Ok ==> final(self).entries() == old(self).entries().push(component),
            r is Err ==> final(self).entries() == old(self).entries(),
    {
        match self.position(component.kissing_component_data.name.as_str()) {
            Some(_) => Err(RegisterComponentError::DuplicateName),
            None => {
                let ghost before = self.names();
                let ghost n = component.data().name@;
                self.components.push(component);
                assert(self.names() =~= before.push(n));
                assert forall|i: int, j: int|
                    0 <= i < self.names().len() && 0 <= j < self.names().len()
                        && #[trigger] self.names()[i] == #[trigger] self.names()[j] implies i
                    == j by {
                    let m = before.len() as int;
                    if i < m && j < m {
                        assert(before[i] == before[j]);
                    } else if i < m {
                        assert(before[i] == n);
                    } else if j < m {
                        assert(before[j] == n);
                    }
                }
                Ok(())
            },
        }
    }

    /// The component type at `index`.
    pub fn get(&self, index: usize) -> (r: &KissingComponent<F>)
        requires
            index < self.entries().len(),
        ensures
            *r == self.entries()[index as int],
    {
        &self.components[index]
    }

    /// The number of component types.
    pub fn len(&self) -> (r: usize)
        ensures
            r == self.entries().len(),
    {
        self.components.len()
    }
}

/// What to do with one component listed in a node's metadata.
pub enum ComponentStep {
    /// Attach the registered component type at this position, from these
    /// fields.
    Attach { component: usize, fields: Vec<(String, String)> },
    /// No component type has this name: report it and go on.
    Unknown { name: String },
}

/// The step for a parsed component, given the registered names.
pub open spec fn step_matches(step: ComponentStep, p: ParsedComponent, names: Seq<Seq<char>>) -> bool {
    match step {
        ComponentStep::Attach { component, fields } => {
            &&& names.contains(p.0)
            &&& component < names.len()
            &&& names[component as int] == p.0
            &&& fields_view(fields@) == p.1
        },
        ComponentStep::Unknown { name } => !names.contains(p.0) && name@ == p.0,
    }
}

impl<F> KissingComponentRegistry<F> {
    /// Plans the editor components of a node from its metadata: nothing where
    /// it has none; an error, and no component at all, where the metadata is
    /// malformed; else one step per listed component, in order.
    pub fn apply_kissing_components(&self, metadata: &Option<MetaValue>) -> (r: Result<
        Vec<ComponentStep>,
        MetadataError,
    >)
        ensures
            match metadata {
                None => r is Ok && r->Ok_0@.len() == 0,
                Some(m) => match (parse_metadata(*m), r) {
                    (Ok(ps), Ok(steps)) => steps@.len() == ps.len() && forall|i: int|
                        0 <= i < ps.len() ==> step_matches(#[trigger] steps@[i], ps[i], self.names()),
                    (Err(e), Err(x)) => e == x,
                    _ => false,
                },
            },
    {
        let m = match metadata {
            None => {
                return Ok(Vec::new());
            },
            Some(m) => m,
        };
        let parsed = match convert_component_data_variant_to_rust(m) {
            Ok(p) => p,
            Err(e) => {
                return Err(e);
            },
        };
        let ghost ps = parsed_view(parsed@);
        let mut steps: Vec<ComponentStep> = Vec::new();
        let mut i: usize = 0;
        while i < parsed.len()
            invariant
                ps == parsed_view(parsed@),
                i <= parsed@.len(),
                steps@.len() == i,
                forall|k: int| 0 <= k < i ==> step_matches(#[trigger] steps@[k], ps[k], self.names()),
            decreases parsed@.len() - i,
        {
            let name = &parsed[i].0;
            match self.position(name.as_str()) {
                Some(component) => {
                    let fields = clone_fields(&parsed[i].1);
                    steps.push(ComponentStep::Attach { component, fields });
                },
                None => {
                    steps.push(ComponentStep::Unknown { name: name.clone() });
                },
            }
            i = i + 1;
        }
        Ok(steps)
    }
}

fn clone_fields(v: &Vec<(String, String)>) -> (r: Vec<(String, String)>)
    ensures
        fields_view(r@) == fields_view(v@),
{
    let mut r: Vec<(String, String)> = Vec::new();
    let mut i: usize = 0;
    while i < v.len()
        invariant
            i <= v@.len(),
            fields_view(r@) == fields_view(v@.take(i as int)),
        decreases v@.len() - i,
    {
        let ghost before = r@;
        r.push((v[i].0.clone(), v[i].1.clone()));
        assert(v@.take(i + 1) =~= v@.take(i as int).push(v@[i as int]));
        assert(fields_view(r@) =~= fields_view(before).push((v@[i as int].0@, v@[i as int].1@)));
        assert(fields_view(r@) =~= fields_view(v@.take(i + 1)));
        i = i + 1;
    }
    assert(v@.take(v@.len() as int) =~= v@);
    r
}

} // verus!
