//! The Rust source of the dispatch function: one `match` arm per dispatch
//! entry, keyed by the class-name hash, and a fallback to the custom node
//! types.
use crate::class_data::{names_view, DispatchEntry};
use crate::decimal::{decimal_text, write_decimal};
use vstd::prelude::*;
use vstd::string::*;

verus! {

/// The expression that builds the marker component of the class type `c`.
pub open spec fn component_expr(c: Seq<char>) -> Seq<char> {
    "crate::GodotNode::<godot::classes::"@ + c + ">::default()"@
}

/// The component expressions of `cs`, separated by commas.
pub open spec fn joined_exprs(cs: Seq<Seq<char>>) -> Seq<char>
    decreases cs.len(),
{
    if cs.len() == 0 {
        Seq::empty()
    } else if cs.len() == 1 {
        component_expr(cs[0])
    } else {
        joined_exprs(cs.drop_last()) + ", "@ + component_expr(cs.last())
    }
}

/// The bundle to spawn: a single component alone, several as a tuple.
pub open spec fn bundle_expr(cs: Seq<Seq<char>>) -> Seq<char> {
    if cs.len() == 1 {
        component_expr(cs[0])
    } else {
        "("@ + joined_exprs(cs) + ")"@
    }
}

/// The `match` arm of one dispatch entry.
pub open spec fn arm_text(hash: u64, cs: Seq<Seq<char>>) -> Seq<char> {
    "\n\t\t"@ + decimal_text(hash as nat) + " => { world.spawn("@ + bundle_expr(cs)
        + ").into() }"@
}

/// The arms of `entries`, in order.
pub open spec fn arms_text(entries: Seq<DispatchEntry>) -> Seq<char>
    decreases entries.len(),
{
    if entries.len() == 0 {
        Seq::empty()
    } else {
        arms_text(entries.drop_last()) + arm_text(
            entries.last().hash,
            names_view(entries.last().components@),
        )
    }
}

pub open spec fn source_head() -> Seq<char> {
    "fn add_components_for_node<'a>(world: &'a mut bevy::prelude::World, node: &godot::prelude::Gd<godot::prelude::Node>) -> Option<bevy::prelude::EntityWorldMut<'a>> {\n\tmatch godot::prelude::StringName::from(&node.get_class()).hash_u32() {"@
}

pub open spec fn source_tail() -> Seq<char> {
    "\n\t\t_ => crate::add_components_for_custom_node(world, node),\n\t}\n}\n"@
}

/// The source of the dispatch function for `entries`.
pub open spec fn dispatch_source_text(entries: Seq<DispatchEntry>) -> Seq<char> {
    source_head() + arms_text(entries) + source_tail()
}

fn write_component_expr(out: &mut String, c: &str)
    ensures
        final(out)@ == old(out)@ + component_expr(c@),
{
    out.append("crate::GodotNode::<godot::classes::");
    out.append(c);
    out.append(">::default()");
    assert(final(out)@ =~= old(out)@ + component_expr(c@));
}

fn write_arm(out: &mut String, entry: &DispatchEntry)
    ensures
        final(out)@ == old(out)@ + arm_text(entry.hash, names_view(entry.components@)),
{
    let ghost cs = names_view(entry.components@);
    let ghost start = out@;
    out.append("\n\t\t");
    write_decimal(out, entry.hash);
    out.append(" => { world.spawn(");
    let ghost before_bundle = out@;
    let n = entry.components.len();
    if n != 1 {
        out.append("(");
    }
    let ghost open_len = out@;
    let mut i: usize = 0;
    assert(cs.take(0) =~= Seq::<Seq<char>>::empty());
    assert(open_len =~= open_len + joined_exprs(cs.take(0)));
    while i < n
        invariant
            n == entry.components@.len(),
            cs == names_view(entry.components@),
            i <= n,
            out@ == open_len + joined_exprs(cs.take(i as int)),
        decreases n - i,
    {
        assert(cs.take(i + 1).drop_last() =~= cs.take(i as int));
        assert(cs.take(i + 1).last() == entry.components@[i as int]@);
        if i > 0 {
            out.append(", ");
        }
        let ghost mid = out@;
        write_component_expr(out, entry.components[i].as_str());
        proof {
            if i > 0 {
                assert(out@ =~= open_len + (joined_exprs(cs.take(i as int)) + ", "@
                    + component_expr(cs.take(i + 1).last())));
            } else {
                assert(out@ =~= open_len + component_expr(cs.take(i + 1).last()));
            }
        }
        i = i + 1;
    }
    assert(cs.take(n as int) =~= cs);
    if n != 1 {
        out.append(")");
    }
    out.append(").into() }");
    proof {
        if n == 1 {
            assert(joined_exprs(cs) == component_expr(cs[0]));
        }
        assert(out@ =~= start + arm_text(entry.hash, cs));
    }
}

/// The Rust source of the dispatch function for `entries`: a `match` on the
/// hash of the node's class name, whose arm for each entry spawns an entity
/// with the entry's marker components, and whose last arm hands the node to
/// the custom node types.
pub fn dispatch_source(entries: &Vec<DispatchEntry>) -> (r: String)
    ensures
        r@ == dispatch_source_text(entries@),
{
    let mut out = String::from_str(
        "fn add_components_for_node<'a>(world: &'a mut bevy::prelude::World, node: &godot::prelude::Gd<godot::prelude::Node>) -> Option<bevy::prelude::EntityWorldMut<'a>> {\n\tmatch godot::prelude::StringName::from(&node.get_class()).hash_u32() {",
    );
    let ghost head = out@;
    let mut i: usize = 0;
    assert(entries@.take(0) =~= Seq::<DispatchEntry>::empty());
    assert(out@ =~= head + arms_text(entries@.take(0)));
    while i < entries.len()
        invariant
            head == source_head(),
            i <= entries@.len(),
            out@ == head + arms_text(entries@.take(i as int)),
        decreases entries@.len() - i,
    {
        assert(entries@.take(i + 1).drop_last() =~= entries@.take(i as int));
        assert(entries@.take(i + 1).last() == entries@[i as int]);
        write_arm(&mut out, &entries[i]);
        assert(out@ =~= head + arms_text(entries@.take(i + 1)));
        i = i + 1;
    }
    assert(entries@.take(entries@.len() as int) =~= entries@);
    out.append("\n\t\t_ => crate::add_components_for_custom_node(world, node),\n\t}\n}\n");
    assert(out@ =~= dispatch_source_text(entries@));
    out
}

} // verus!
