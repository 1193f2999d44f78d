//! The engine script that hashes class names, and the reading of what it
//! prints. The engine's own hash is used so that the table built here agrees
//! with the hashes the running engine computes.
use crate::decimal::{parse_u64, parsed_u64};
use crate::text::{chars_of, occurs_at};
use vstd::prelude::*;
use vstd::string::*;

verus! {

/// Unicode's `White_Space` characters, which `str::trim` removes.
pub open spec fn is_white_space(c: char) -> bool {
    ||| '\t' <= c <= '\r'
    ||| c == ' '
    ||| c == '\u{85}'
    ||| c == '\u{A0}'
    ||| c == '\u{1680}'
    ||| '\u{2000}' <= c <= '\u{200A}'
    ||| c == '\u{2028}'
    ||| c == '\u{2029}'
    ||| c == '\u{202F}'
    ||| c == '\u{205F}'
    ||| c == '\u{3000}'
}

fn white_space(c: char) -> (r: bool)
    ensures
        r == is_white_space(c),
{
    ('\t' <= c && c <= '\r') || c == ' ' || c == '\u{85}' || c == '\u{A0}' || c == '\u{1680}' || (
    '\u{2000}' <= c && c <= '\u{200A}') || c == '\u{2028}' || c == '\u{2029}' || c == '\u{202F}'
        || c == '\u{205F}' || c == '\u{3000}'
}

/// `s` without its leading white space.
pub open spec fn trim_start(s: Seq<char>) -> Seq<char>
    decreases s.len(),
{
    if s.len() > 0 && is_white_space(s[0]) {
        trim_start(s.skip(1))
    } else {
        s
    }
}

/// `s` without its trailing white space.
pub open spec fn trim_end(s: Seq<char>) -> Seq<char>
    decreases s.len(),
{
    if s.len() > 0 && is_white_space(s.last()) {
        trim_end(s.drop_last())
    } else {
        s
    }
}

/// `s` without leading and trailing white space.
pub open spec fn trimmed(s: Seq<char>) -> Seq<char> {
    trim_end(trim_start(s))
}

/// The characters `v[lo..hi]`.
fn sub_chars(v: &Vec<char>, lo: usize, hi: usize) -> (r: Vec<char>)
    requires
        lo <= hi <= v@.len(),
    ensures
        r@ == v@.subrange(lo as int, hi as int),
{
    let mut r: Vec<char> = Vec::new();
    let mut i: usize = lo;
    while i < hi
        invariant
            lo <= i <= hi <= v@.len(),
            r@ == v@.subrange(lo as int, i as int),
        decreases hi - i,
    {
        r.push(v[i]);
        i = i + 1;
    }
    r
}

/// `v` without leading and trailing white space.
fn trim_chars(v: &Vec<char>) -> (r: Vec<char>)
    ensures
        r@ == trimmed(v@),
{
    let n = v.len();
    let mut i: usize = 0;
    assert(v@.skip(0) =~= v@);
    while i < n && white_space(v[i])
        invariant
            i <= n == v@.len(),
            trim_start(v@) == trim_start(v@.skip(i as int)),
        decreases n - i,
    {
        assert(v@.skip(i as int).skip(1) =~= v@.skip(i + 1));
        i = i + 1;
    }
    let ghost front = v@.skip(i as int);
    assert(trim_start(v@) == front) by {
        if i < n {
            assert(front[0] == v@[i as int]);
        }
    }
    let mut j: usize = n;
    while j > i && white_space(v[j - 1])
        invariant
            i <= j <= n == v@.len(),
            front == v@.skip(i as int),
            trim_end(front) == trim_end(v@.subrange(i as int, j as int)),
        decreases j,
    {
        assert(v@.subrange(i as int, j as int).drop_last() =~= v@.subrange(i as int, j - 1));
        j = j - 1;
    }
    assert(v@.skip(i as int) =~= v@.subrange(i as int, n as int));
    proof {
        let t = v@.subrange(i as int, j as int);
        if j > i {
            assert(t.last() == v@[j - 1]);
        }
    }
    sub_chars(v, i, j)
}

/// The text that precedes the hashes in the script's output.
pub open spec fn marker() -> Seq<char> {
    seq!['\u{1F48B}', ',']
}

/// The first position of the marker in `s`, if it occurs.
pub open spec fn marker_pos(s: Seq<char>) -> Option<int> {
    if exists|i: int| occurs_at(s, marker(), i) {
        Some(
            choose|i: int|
                occurs_at(s, marker(), i) && forall|k: int| 0 <= k < i ==> !occurs_at(s, marker(), k),
        )
    } else {
        None
    }
}

/// The pieces of `s` between the separators `sep`, in order.
pub open spec fn split_on(s: Seq<char>, sep: char) -> Seq<Seq<char>>
    decreases s.len(),
{
    if s.len() == 0 {
        seq![Seq::empty()]
    } else {
        let rest = split_on(s.drop_last(), sep);
        if s.last() == sep {
            rest.push(Seq::empty())
        } else {
            rest.update(rest.len() - 1, rest.last().push(s.last()))
        }
    }
}

proof fn lemma_split_on_nonempty(s: Seq<char>, sep: char)
    ensures
        split_on(s, sep).len() >= 1,
    decreases s.len(),
{
    if s.len() > 0 {
        lemma_split_on_nonempty(s.drop_last(), sep);
    }
}

/// Why the script's output cannot be read.
#[derive(Debug, Clone, Copy, PartialEq, Eq)]
pub enum HashOutputError {
    /// The output does not hold the marker that precedes the hashes.
    MissingMarker,
    /// The piece at this position of the comma-separated list is no `u64`.
    NotANumber { index: usize },
}

/// The comma-separated numbers that follow the marker in `output`.
pub open spec fn hash_pieces(output: Seq<char>) -> Seq<Seq<char>> {
    let t = trimmed(output);
    split_on(t.skip(marker_pos(t)->0 + marker().len()), ',')
}

/// Reads the hashes from the script's output: after the first marker, the
/// comma-separated numbers, in order.
pub fn parse_class_name_hashes(output: &str) -> (r: Result<Vec<u64>, HashOutputError>)
    ensures
        ({
            let t = trimmed(output@);
            let pieces = hash_pieces(output@);
            match r {
                Ok(v) => {
                    &&& marker_pos(t) is Some
                    &&& v@.len() == pieces.len()
                    &&& forall|i: int|
                        0 <= i < v@.len() ==> parsed_u64(#[trigger] pieces[i]) == Some(v@[i])
                },
                Err(HashOutputError::MissingMarker) => marker_pos(t) is None,
                Err(HashOutputError::NotANumber { index }) => {
                    &&& marker_pos(t) is Some
                    &&& index < pieces.len()
                    &&& parsed_u64(pieces[index as int]) is None
                    &&& forall|i: int| 0 <= i < index ==> (#[trigger] parsed_u64(pieces[i])) is Some
                },
            }
        }),
{
    let all = chars_of(output);
    let t = trim_chars(&all);
    let n = t.len();
    // Find the first marker.
    let mut p: usize = 0;
    let mut found = false;
    while p < n && p + 1 < n && !found
        invariant
            n == t@.len(),
            forall|k: int| 0 <= k < p ==> !occurs_at(t@, marker(), k),
            found ==> occurs_at(t@, marker(), p as int),
            !found ==> p <= n,
        decreases n - p + (if found { 0int } else { 1int }),
    {
        if t[p] == '\u{1F48B}' && t[p + 1] == ',' {
            assert(t@.subrange(p as int, p + 2) =~= marker());
            found = true;
        } else {
            assert(!occurs_at(t@, marker(), p as int)) by {
                if occurs_at(t@, marker(), p as int) {
                    assert(t@.subrange(p as int, p + 2)[0] == t@[p as int]);
                    assert(t@.subrange(p as int, p + 2)[1] == t@[p + 1]);
                }
            }
            p = p + 1;
        }
    }
    if !found {
        assert(marker_pos(t@) is None) by {
            if exists|i: int| occurs_at(t@, marker(), i) {
                let i = choose|i: int| occurs_at(t@, marker(), i);
                assert(i < p);
            }
        }
        return Err(HashOutputError::MissingMarker);
    }
    assert(marker_pos(t@) == Some(p as int)) by {
        let q = marker_pos(t@)->0;
        assert(occurs_at(t@, marker(), q));
        assert(!(q < p));
        assert(!(p < q));
    }
    let rest = sub_chars(&t, p + 2, n);
    assert(rest@ =~= t@.skip(p + 2));
    split_parse(&rest)
}

proof fn lemma_split_on_prefix(s: Seq<char>, j: int, sep: char)
    requires
        0 <= j <= s.len(),
    ensures
        split_on(s.take(j), sep).len() <= split_on(s, sep).len(),
        forall|k: int|
            0 <= k < split_on(s.take(j), sep).len() - 1 ==> #[trigger] split_on(s, sep)[k]
                == split_on(s.take(j), sep)[k],
    decreases s.len() - j,
{
    lemma_split_on_nonempty(s.take(j), sep);
    if j < s.len() {
        lemma_split_on_prefix(s, j + 1, sep);
        assert(s.take(j + 1).drop_last() =~= s.take(j));
        lemma_split_on_nonempty(s.take(j + 1), sep);
    } else {
        assert(s.take(j) =~= s);
    }
}

/// Splits `s` on commas and reads each piece as a `u64`.
fn split_parse(s: &Vec<char>) -> (r: Result<Vec<u64>, HashOutputError>)
    ensures
        ({
            let pieces = split_on(s@, ',');
            match r {
                Ok(v) => {
                    &&& v@.len() == pieces.len()
                    &&& forall|i: int|
                        0 <= i < v@.len() ==> parsed_u64(#[trigger] pieces[i]) == Some(v@[i])
                },
                Err(HashOutputError::MissingMarker) => false,
                Err(HashOutputError::NotANumber { index }) => {
                    &&& index < pieces.len()
                    &&& parsed_u64(pieces[index as int]) is None
                    &&& forall|i: int| 0 <= i < index ==> (#[trigger] parsed_u64(pieces[i])) is Some
                },
            }
        }),
{
    let n = s.len();
    let ghost pieces = split_on(s@, ',');
    let mut values: Vec<u64> = Vec::new();
    let ghost mut done: Seq<Seq<char>> = Seq::empty();
    let mut start: usize = 0;
    let mut i: usize = 0;
    assert(s@.take(0) =~= Seq::<char>::empty());
    assert(s@.subrange(0, 0) =~= Seq::<char>::empty());
    while i < n
        invariant
            n == s@.len(),
            pieces == split_on(s@, ','),
            start <= i <= n,
            split_on(s@.take(i as int), ',') == done.push(s@.subrange(start as int, i as int)),
            values@.len() == done.len(),
            forall|k: int| 0 <= k < done.len() ==> parsed_u64(#[trigger] done[k]) == Some(values@[k]),
        decreases n - i,
    {
        let ghost before = split_on(s@.take(i as int), ',');
        assert(s@.take(i + 1).drop_last() =~= s@.take(i as int));
        assert(s@.take(i + 1).last() == s@[i as int]);
        if s[i] == ',' {
            let v = parse_u64(s, start, i);
            proof {
                lemma_split_on_prefix(s@, i + 1, ',');
                assert(split_on(s@.take(i + 1), ',') == before.push(Seq::empty()));
                assert(split_on(s@.take(i + 1), ',')[done.len() as int] == s@.subrange(
                    start as int,
                    i as int,
                ));
                assert forall|k: int| 0 <= k <= done.len() implies #[trigger] pieces[k]
                    == split_on(s@.take(i + 1), ',')[k] by {}
            }
            match v {
                Some(v) => {
                    values.push(v);
                },
                None => {
                    proof {
                        assert(pieces[done.len() as int] == s@.subrange(start as int, i as int));
                        assert forall|k: int| 0 <= k < done.len() implies (#[trigger] parsed_u64(
                            pieces[k],
                        )) is Some by {
                            assert(pieces[k] == done[k]);
                        }
                    }
                    return Err(HashOutputError::NotANumber { index: values.len() });
                },
            }
            proof {
                done = done.push(s@.subrange(start as int, i as int));
                assert(s@.subrange(i + 1, i + 1) =~= Seq::<char>::empty());
                assert(split_on(s@.take(i + 1), ',') =~= done.push(
                    s@.subrange(i + 1, i + 1),
                ));
            }
            start = i + 1;
        } else {
            assert(s@.subrange(start as int, i + 1) =~= s@.subrange(start as int, i as int).push(
                s@[i as int],
            ));
            assert(split_on(s@.take(i + 1), ',') =~= done.push(s@.subrange(start as int, i + 1)));
        }
        i = i + 1;
    }
    assert(s@.take(n as int) =~= s@);
    let v = parse_u64(s, start, n);
    match v {
        Some(v) => {
            values.push(v);
            assert forall|k: int| 0 <= k < values@.len() implies parsed_u64(#[trigger] pieces[k])
                == Some(values@[k]) by {
                if k < done.len() {
                    assert(pieces[k] == done[k]);
                }
            }
            Ok(values)
        },
        None => {
            assert forall|k: int| 0 <= k < done.len() implies (#[trigger] parsed_u64(
                pieces[k],
            )) is Some by {
                assert(pieces[k] == done[k]);
            }
            Err(HashOutputError::NotANumber { index: values.len() })
        },
    }
}


/// The script's opening: it collects the hashes in `ids`, after the marker.
pub open spec fn script_head() -> Seq<char> {
    "extends SceneTree\n\nfunc _init():\n\tvar ids = [\"\u{1F48B}\"];\n"@
}

/// The script's close: it prints `ids` joined by commas and quits.
pub open spec fn script_tail() -> Seq<char> {
    "\n\tprint(\",\".join(ids));\n\tquit();"@
}

/// The script line that hashes the class name `name`.
pub open spec fn hash_line(name: Seq<char>) -> Seq<char> {
    "\tids.push_back(StringName(\""@ + name + "\").hash());"@
}

/// One hashing line per name, separated by line breaks.
pub open spec fn hash_lines(names: Seq<Seq<char>>) -> Seq<char>
    decreases names.len(),
{
    if names.len() == 0 {
        Seq::empty()
    } else if names.len() == 1 {
        hash_line(names[0])
    } else {
        hash_lines(names.drop_last()) + "\n"@ + hash_line(names.last())
    }
}

/// The script that prints the engine's hash of each of `names`, in order.
pub open spec fn hash_script(names: Seq<Seq<char>>) -> Seq<char> {
    script_head() + hash_lines(names) + script_tail()
}

/// The engine script that prints the hashes of `class_names`, in order, after
/// the marker and separated by commas.
pub fn class_name_hash_script(class_names: &Vec<String>) -> (r: String)
    ensures
        r@ == hash_script(class_names@.map_values(|s: String| s@)),
{
    let ghost names = class_names@.map_values(|s: String| s@);
    let mut out = String::from_str("extends SceneTree\n\nfunc _init():\n\tvar ids = [\"\u{1F48B}\"];\n");
    let ghost head = out@;
    let mut i: usize = 0;
    assert(names.take(0) =~= Seq::<Seq<char>>::empty());
    assert(out@ =~= head + hash_lines(names.take(0)));
    while i < class_names.len()
        invariant
            names == class_names@.map_values(|s: String| s@),
            i <= class_names@.len(),
            head == script_head(),
            out@ == head + hash_lines(names.take(i as int)),
        decreases class_names@.len() - i,
    {
        let ghost before = out@;
        assert(names.take(i + 1).drop_last() =~= names.take(i as int));
        assert(names.take(i + 1).last() == class_names@[i as int]@);
        if i > 0 {
            out.append("\n");
        }
        out.append("\tids.push_back(StringName(\"");
        out.append(class_names[i].as_str());
        out.append("\").hash());");
        proof {
            if i > 0 {
                assert(out@ =~= head + (hash_lines(names.take(i as int)) + "\n"@ + hash_line(
                    class_names@[i as int]@,
                )));
            } else {
                assert(out@ =~= head + hash_line(class_names@[i as int]@));
            }
        }
        i = i + 1;
    }
    assert(names.take(class_names@.len() as int) =~= names);
    out.append("\n\tprint(\",\".join(ids));\n\tquit();");
    assert(out@ =~= hash_script(names));
    out
}

} // verus!
