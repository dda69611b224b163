//! What is parsed twice comes out alike: the proof.
//!
//! A value is parsed from one place of one body in two states, of which the
//! second has more cells. The cells that the two parses make correspond one to
//! one, and hold the same but for the numbers of the cells they refer to.
use vstd::prelude::*;
use crate::constants::ALIAS;
use crate::constants::ARRAY;
use crate::constants::ARRAYREF_0;
use crate::constants::ARRAYREF_15;
use crate::constants::COPY;
use crate::constants::HASH;
use crate::constants::HASHREF_0;
use crate::constants::HASHREF_15;
use crate::constants::OBJECT;
use crate::constants::OBJECTV;
use crate::constants::OBJECTV_FREEZE;
use crate::constants::OBJECT_FREEZE;
use crate::constants::REFN;
use crate::constants::REFP;
use crate::constants::REGEXP;
use crate::constants::TRACK_BIT;
use crate::constants::TYPE_MASK;
use crate::constants::WEAKEN;
use crate::laws::lemma_parse_keeps;
use crate::parser::at;
use crate::parser::is_leaf;
use crate::parser::reads_as_string;
use crate::parser::set_node;
use crate::parser::spec_begin_copy;
use crate::parser::spec_fill;
use crate::parser::spec_finish_object;
use crate::parser::spec_leaf;
use crate::parser::spec_lookup;
use crate::parser::spec_parse_array;
use crate::parser::spec_parse_entries;
use crate::parser::spec_parse_hash;
use crate::parser::spec_parse_inner;
use crate::parser::spec_parse_items;
use crate::parser::spec_parse_str;
use crate::parser::with_copy_pos;
use crate::parser::Error;
use crate::parser::Node;
use crate::parser::ParseEnv;
use crate::parser::ParseState;
use crate::reader;

verus! {

/// The number in the second state of the cell that has the number `id` in the
/// first: the first `n` cells are the same cells, the later ones lie `d` further on.
pub open spec fn renamed(id: nat, n: nat, d: nat) -> nat {
    if id < n {
        id
    } else {
        id + d
    }
}

/// The items of an array with every cell renamed.
pub open spec fn renamed_items(items: Seq<nat>, n: nat, d: nat) -> Seq<nat> {
    items.map_values(|o: nat| renamed(o, n, d))
}

/// The entries of a hash with every cell renamed.
pub open spec fn renamed_entries(entries: Map<Seq<u8>, nat>, n: nat, d: nat) -> Map<Seq<u8>, nat> {
    entries.map_values(|o: nat| renamed(o, n, d))
}

/// What a cell holds, with every cell that it refers to renamed.
pub open spec fn renamed_node(node: Node, n: nat, d: nat) -> Node {
    match node {
        Node::Ref(o) => Node::Ref(renamed(o, n, d)),
        Node::WeakRef(o) => Node::WeakRef(renamed(o, n, d)),
        Node::Array(items) => Node::Array(renamed_items(items, n, d)),
        Node::Hash(entries) => Node::Hash(renamed_entries(entries, n, d)),
        Node::Object { class, value } => Node::Object {
            class: renamed(class, n, d),
            value: renamed(value, n, d),
        },
        Node::ObjectFreeze { class, value } => Node::ObjectFreeze {
            class: renamed(class, n, d),
            value: renamed(value, n, d),
        },
        Node::Regexp { pattern, flags } => Node::Regexp {
            pattern: renamed(pattern, n, d),
            flags: renamed(flags, n, d),
        },
        other => other,
    }
}

/// Whether the cursors `a` and `b` of two parses go together: they are the
/// same, or they are the ones that the parses started with.
pub open spec fn cursors_agree(a: nat, b: nat, from: nat, to: nat) -> bool {
    a == b || (a == from && b == to)
}

/// Whether the cells of `b` are those of `a`, renamed: the first `n` are
/// the same, and each later cell of `a` is found `d` further on in `b`.
pub open spec fn cells_alike(a: Seq<Node>, b: Seq<Node>, n: nat, d: nat) -> bool {
    &&& n <= a.len()
    &&& b.len() == a.len() + d
    &&& forall|i: int| 0 <= i < n ==> #[trigger] b[i] == a[i]
    &&& forall|i: int| n <= i < a.len() ==> b[i + d] == renamed_node(#[trigger] a[i], n, d)
}

/// Whether what `a` tracks is tracked by `b` as well, to the same cell renamed.
pub open spec fn tracks_alike(a: Map<usize, nat>, b: Map<usize, nat>, n: nat, d: nat) -> bool {
    forall|k: usize| #[trigger] a.contains_key(k) ==> b.contains_key(k) && b[k] == renamed(a[k], n, d)
}

/// Whether the state `b` is alike the state `a`: they stand at the same
/// position, and `b` has the cells of `a`, renamed, and tracks what `a` tracks.
pub open spec fn alike(a: ParseState, b: ParseState, n: nat, d: nat, from: nat, to: nat) -> bool {
    &&& b.pos == a.pos
    &&& cursors_agree(a.copy_pos, b.copy_pos, from, to)
    &&& cells_alike(a.graph, b.graph, n, d)
    &&& tracks_alike(a.track, b.track, n, d)
}

proof fn lemma_alike_moved(
    a: ParseState,
    b: ParseState,
    n: nat,
    d: nat,
    from: nat,
    to: nat,
    pos: nat,
    ca: nat,
    cb: nat,
)
    requires
        alike(a, b, n, d, from, to),
        cursors_agree(ca, cb, from, to),
    ensures
        alike(
            ParseState { pos, copy_pos: ca, ..a },
            ParseState { pos, copy_pos: cb, ..b },
            n,
            d,
            from,
            to,
        ),
{
    let a2 = ParseState { pos, copy_pos: ca, ..a };
    let b2 = ParseState { pos, copy_pos: cb, ..b };
    assert forall|i: int| 0 <= i < n implies #[trigger] b2.graph[i] == a2.graph[i] by {
        assert(b.graph[i] == a.graph[i]);
    }
    assert forall|i: int| n <= i < a2.graph.len() implies b2.graph[i + d] == renamed_node(
        #[trigger] a2.graph[i],
        n,
        d,
    ) by {
        assert(b.graph[i + d] == renamed_node(a.graph[i], n, d));
    }
    assert forall|k: usize| #[trigger] a2.track.contains_key(k) implies b2.track.contains_key(k)
        && b2.track[k] == renamed(a2.track[k], n, d) by {
        assert(a.track.contains_key(k));
    }
}

proof fn lemma_alike_push(a: ParseState, b: ParseState, n: nat, d: nat, from: nat, to: nat, node: Node)
    requires
        alike(a, b, n, d, from, to),
    ensures
        alike(
            ParseState { graph: a.graph.push(node), ..a },
            ParseState { graph: b.graph.push(renamed_node(node, n, d)), ..b },
            n,
            d,
            from,
            to,
        ),
{
    let a2 = ParseState { graph: a.graph.push(node), ..a };
    let b2 = ParseState { graph: b.graph.push(renamed_node(node, n, d)), ..b };
    assert forall|i: int| 0 <= i < n implies #[trigger] b2.graph[i] == a2.graph[i] by {
        assert(b.graph[i] == a.graph[i]);
    }
    assert forall|i: int| n <= i < a2.graph.len() implies b2.graph[i + d] == renamed_node(
        #[trigger] a2.graph[i],
        n,
        d,
    ) by {
        if i < a.graph.len() {
            assert(b.graph[i + d] == renamed_node(a.graph[i], n, d));
        }
    }
    assert forall|k: usize| #[trigger] a2.track.contains_key(k) implies b2.track.contains_key(k)
        && b2.track[k] == renamed(a2.track[k], n, d) by {
        assert(a.track.contains_key(k));
    }
}

proof fn lemma_alike_set(
    a: ParseState,
    b: ParseState,
    n: nat,
    d: nat,
    from: nat,
    to: nat,
    id: nat,
    node: Node,
)
    requires
        alike(a, b, n, d, from, to),
        n <= id < a.graph.len(),
    ensures
        alike(set_node(a, id, node), set_node(b, id + d, renamed_node(node, n, d)), n, d, from, to),
{
    let a2 = set_node(a, id, node);
    let b2 = set_node(b, id + d, renamed_node(node, n, d));
    assert forall|i: int| 0 <= i < n implies #[trigger] b2.graph[i] == a2.graph[i] by {
        assert(b.graph[i] == a.graph[i]);
    }
    assert forall|i: int| n <= i < a2.graph.len() implies b2.graph[i + d] == renamed_node(
        #[trigger] a2.graph[i],
        n,
        d,
    ) by {
        if i != id {
            assert(b.graph[i + d] == renamed_node(a.graph[i], n, d));
        }
    }
    assert forall|k: usize| #[trigger] a2.track.contains_key(k) implies b2.track.contains_key(k)
        && b2.track[k] == renamed(a2.track[k], n, d) by {
        assert(a.track.contains_key(k));
    }
}

proof fn lemma_alike_track(
    a: ParseState,
    b: ParseState,
    n: nat,
    d: nat,
    from: nat,
    to: nat,
    key: usize,
    id: nat,
)
    requires
        alike(a, b, n, d, from, to),
    ensures
        alike(
            ParseState { track: a.track.insert(key, id), ..a },
            ParseState { track: b.track.insert(key, renamed(id, n, d)), ..b },
            n,
            d,
            from,
            to,
        ),
{
    let a2 = ParseState { track: a.track.insert(key, id), ..a };
    let b2 = ParseState { track: b.track.insert(key, renamed(id, n, d)), ..b };
    assert forall|i: int| 0 <= i < n implies #[trigger] b2.graph[i] == a2.graph[i] by {
        assert(b.graph[i] == a.graph[i]);
    }
    assert forall|i: int| n <= i < a2.graph.len() implies b2.graph[i + d] == renamed_node(
        #[trigger] a2.graph[i],
        n,
        d,
    ) by {
        assert(b.graph[i + d] == renamed_node(a.graph[i], n, d));
    }
    assert forall|k: usize| #[trigger] a2.track.contains_key(k) implies b2.track.contains_key(k)
        && b2.track[k] == renamed(a2.track[k], n, d) by {
        if k != key {
            assert(a.track.contains_key(k));
        }
    }
}

/// A cell holds a string in the one state if its namesake does in the other.
proof fn lemma_strings_alike(a: Seq<Node>, b: Seq<Node>, n: nat, d: nat, id: nat)
    requires
        cells_alike(a, b, n, d),
    ensures
        reads_as_string(b, renamed(id, n, d)) == reads_as_string(a, id),
{
    if id < n {
        assert(b[id as int] == a[id as int]);
    } else if id < a.len() {
        assert(b[(id + d) as int] == renamed_node(a[id as int], n, d));
    }
}

/// The step of a parse from `a` and the step from `b` come out alike, with
/// results `x` and `y`.
pub open spec fn steps_alike<T>(
    ra: Result<(ParseState, T), Error>,
    rb: Result<(ParseState, T), Error>,
    a: ParseState,
    b: ParseState,
    n: nat,
    d: nat,
    from: nat,
    to: nat,
) -> bool {
    ra matches Ok((a2, x)) ==> rb matches Ok((b2, y)) && alike(a2, b2, n, d, from, to)
        && a2.copy_pos == a.copy_pos && b2.copy_pos == b.copy_pos
}

proof fn lemma_leaf_alike(
    env: ParseEnv,
    a: ParseState,
    b: ParseState,
    tag: u8,
    id: nat,
    n: nat,
    d: nat,
    from: nat,
    to: nat,
)
    requires
        alike(a, b, n, d, from, to),
        n <= id < a.graph.len(),
        is_leaf(tag),
        spec_leaf(env, a, tag, id) is Ok,
    ensures
        spec_leaf(env, b, tag, id + d) matches Ok(b2) && alike(
            spec_leaf(env, a, tag, id)->Ok_0,
            b2,
            n,
            d,
            from,
            to,
        ) && b2.copy_pos == b.copy_pos,
{
    let a2 = spec_leaf(env, a, tag, id)->Ok_0;
    let node = a2.graph[id as int];
    lemma_alike_moved(a, b, n, d, from, to, a2.pos, a.copy_pos, b.copy_pos);
    let am = ParseState { pos: a2.pos, copy_pos: a.copy_pos, ..a };
    let bm = ParseState { pos: a2.pos, copy_pos: b.copy_pos, ..b };
    lemma_alike_set(am, bm, n, d, from, to, id, node);
    assert(a2.graph =~= am.graph.update(id as int, node));
    assert(a2 == set_node(am, id, node));
    assert(renamed_node(node, n, d) == node);
    let b2 = spec_leaf(env, b, tag, id + d)->Ok_0;
    assert(b2.graph =~= bm.graph.update((id + d) as int, node));
    assert(b2 == set_node(bm, id + d, node));
}

proof fn lemma_lookup_alike(
    env: ParseEnv,
    a: ParseState,
    b: ParseState,
    n: nat,
    d: nat,
    from: nat,
    to: nat,
)
    requires
        alike(a, b, n, d, from, to),
        spec_lookup(env, a) is Ok,
    ensures
        spec_lookup(env, b) matches Ok((b2, target)) && alike(
            spec_lookup(env, a)->Ok_0.0,
            b2,
            n,
            d,
            from,
            to,
        ) && target == renamed(spec_lookup(env, a)->Ok_0.1, n, d) && b2.copy_pos == b.copy_pos
            && b2.graph == b.graph,
{
    let (a2, t) = spec_lookup(env, a)->Ok_0;
    if let Ok((p, end)) = reader::spec_read_varlen(env.buf, a.pos) {
        assert(a.track.contains_key(p));
        lemma_alike_moved(a, b, n, d, from, to, end, a.copy_pos, b.copy_pos);
    }
}

proof fn lemma_str_alike(
    env: ParseEnv,
    a: ParseState,
    b: ParseState,
    outer: bool,
    n: nat,
    d: nat,
    from: nat,
    to: nat,
)
    requires
        alike(a, b, n, d, from, to),
        a.copy_pos == 0 && b.copy_pos == 0 || !outer,
        crate::parser::spec_str(env, a, outer) is Ok,
    ensures
        crate::parser::spec_str(env, b, outer) matches Ok((b2, key)) && key == crate::parser::spec_str(
            env,
            a,
            outer,
        )->Ok_0.1 && b2 == (ParseState {
            pos: crate::parser::spec_str(env, a, outer)->Ok_0.0.pos,
            copy_pos: if outer {
                b.copy_pos
            } else {
                b2.copy_pos
            },
            ..b
        }) && (outer ==> b2.copy_pos == b.copy_pos),
    decreases outer as int,
{
    if let Ok((byte, pos)) = reader::spec_read_tag(env.buf, a.pos) {
        let tag = byte & TYPE_MASK;
        if tag == COPY {
            assert(outer);
            let ai = at(a, pos);
            let bi = at(b, pos);
            if let Ok(inside) = spec_begin_copy(env, ai) {
                let inside_b = spec_begin_copy(env, bi)->Ok_0;
                assert(inside_b == (ParseState { pos: inside.pos, copy_pos: inside.copy_pos, ..b }));
                lemma_alike_moved(a, b, n, d, from, to, inside.pos, inside.copy_pos, inside.copy_pos);
                crate::laws::lemma_key_keeps(env, inside, false);
                lemma_str_alike(env, inside, inside_b, false, n, d, from, to);
                crate::laws::lemma_key_keeps(env, inside_b, false);
            }
        }
    }
}

proof fn lemma_inner_alike(
    env: ParseEnv,
    a: ParseState,
    b: ParseState,
    force_track: bool,
    depth: nat,
    n: nat,
    d: nat,
    from: nat,
    to: nat,
)
    requires
        alike(a, b, n, d, from, to),
        from == 0 ==> to == 0,
        spec_parse_inner(env, a, force_track, depth) is Ok,
    ensures
        steps_alike(
            spec_parse_inner(env, a, force_track, depth),
            spec_parse_inner(env, b, force_track, depth),
            a,
            b,
            n,
            d,
            from,
            to,
        ),
        spec_parse_inner(env, b, force_track, depth) matches Ok((b2, out)) && out == renamed(
            spec_parse_inner(env, a, force_track, depth)->Ok_0.1,
            n,
            d,
        ),
    decreases depth, 0nat, 0nat,
{
    reader::lemma_read_tag_found(env.buf, a.pos);
    if let Ok((byte, pos)) = reader::spec_read_tag(env.buf, a.pos) {
        let tag = byte & TYPE_MASK;
        let kept = force_track || byte & TRACK_BIT != 0;
        let id = a.graph.len();
        lemma_alike_push(a, b, n, d, from, to, Node::Undef);
        let ap = ParseState { graph: a.graph.push(Node::Undef), ..a };
        let bp = ParseState { graph: b.graph.push(Node::Undef), ..b };
        if kept {
            lemma_alike_track(ap, bp, n, d, from, to, pos as usize, id);
        }
        let at_ = if kept {
            ParseState { track: ap.track.insert(pos as usize, id), ..ap }
        } else {
            ap
        };
        let bt = if kept {
            ParseState { track: bp.track.insert(pos as usize, id + d), ..bp }
        } else {
            bp
        };
        lemma_alike_moved(at_, bt, n, d, from, to, pos, a.copy_pos, b.copy_pos);
        let made_a = ParseState { pos, copy_pos: a.copy_pos, ..at_ };
        let made_b = ParseState { pos, copy_pos: b.copy_pos, ..bt };
        lemma_fill_alike(env, made_a, made_b, tag, id, (depth - 1) as nat, n, d, from, to);
        if let Ok((fa, out)) = spec_fill(env, made_a, tag, id, (depth - 1) as nat) {
            if let Ok((fb, out_b)) = spec_fill(env, made_b, tag, id + d, (depth - 1) as nat) {
                if kept && (tag == ALIAS || tag == COPY) {
                    lemma_alike_track(fa, fb, n, d, from, to, pos as usize, out);
                }
            }
        }
    }
}

proof fn lemma_fill_alike(
    env: ParseEnv,
    a: ParseState,
    b: ParseState,
    tag: u8,
    id: nat,
    depth: nat,
    n: nat,
    d: nat,
    from: nat,
    to: nat,
)
    requires
        alike(a, b, n, d, from, to),
        from == 0 ==> to == 0,
        n <= id < a.graph.len(),
        spec_fill(env, a, tag, id, depth) is Ok,
    ensures
        steps_alike(
            spec_fill(env, a, tag, id, depth),
            spec_fill(env, b, tag, id + d, depth),
            a,
            b,
            n,
            d,
            from,
            to,
        ),
        spec_fill(env, b, tag, id + d, depth) matches Ok((b2, out)) && out == renamed(
            spec_fill(env, a, tag, id, depth)->Ok_0.1,
            n,
            d,
        ),
    decreases depth, 2nat, 0nat,
{
    if is_leaf(tag) {
        lemma_leaf_alike(env, a, b, tag, id, n, d, from, to);
    } else if tag == REFN || tag == WEAKEN {
        lemma_inner_alike(env, a, b, false, depth, n, d, from, to);
        lemma_parse_keeps(env, a, false, depth);
        if let Ok((a2, child)) = spec_parse_inner(env, a, false, depth) {
            let b2 = spec_parse_inner(env, b, false, depth)->Ok_0.0;
            let node = if tag == REFN {
                Node::Ref(child)
            } else {
                Node::WeakRef(child)
            };
            lemma_alike_set(a2, b2, n, d, from, to, id, node);
        }
    } else if tag == REFP {
        lemma_lookup_alike(env, a, b, n, d, from, to);
        if let Ok((a2, target)) = spec_lookup(env, a) {
            let b2 = spec_lookup(env, b)->Ok_0.0;
            lemma_alike_set(a2, b2, n, d, from, to, id, Node::Ref(target));
        }
    } else if tag == ALIAS {
        lemma_lookup_alike(env, a, b, n, d, from, to);
    } else if tag == COPY {
        if let Ok(inside) = spec_begin_copy(env, a) {
            let inside_b = spec_begin_copy(env, b)->Ok_0;
            lemma_alike_moved(a, b, n, d, from, to, inside.pos, inside.copy_pos, inside.copy_pos);
            assert(inside_b == (ParseState { pos: inside.pos, copy_pos: inside.copy_pos, ..b }));
            lemma_inner_alike(env, inside, inside_b, false, depth, n, d, from, to);
            if let Ok((a2, out)) = spec_parse_inner(env, inside, false, depth) {
                let b2 = spec_parse_inner(env, inside_b, false, depth)->Ok_0.0;
                lemma_alike_moved(a2, b2, n, d, from, to, a2.copy_pos, 0, 0);
            }
        }
    } else if tag == ARRAY {
        if let Ok((count, start)) = reader::spec_read_varint(env.buf, a.pos) {
            lemma_alike_moved(a, b, n, d, from, to, start, a.copy_pos, b.copy_pos);
            lemma_array_alike(env, at(a, start), at(b, start), count, depth, n, d, from, to);
            crate::laws::lemma_array_keeps(env, at(a, start), count, depth);
            if let Ok((a2, items)) = spec_parse_array(env, at(a, start), count, depth) {
                let b2 = spec_parse_array(env, at(b, start), count, depth)->Ok_0.0;
                lemma_alike_set(a2, b2, n, d, from, to, id, Node::Array(items));
            }
        }
    } else if ARRAYREF_0 <= tag <= ARRAYREF_15 {
        let count = (tag - ARRAYREF_0) as u64;
        lemma_array_alike(env, a, b, count, depth, n, d, from, to);
        crate::laws::lemma_array_keeps(env, a, count, depth);
        if let Ok((a2, items)) = spec_parse_array(env, a, count, depth) {
            let b2 = spec_parse_array(env, b, count, depth)->Ok_0.0;
            lemma_alike_push(a2, b2, n, d, from, to, Node::Array(items));
            let ag = ParseState { graph: a2.graph.push(Node::Array(items)), ..a2 };
            let bg = ParseState {
                graph: b2.graph.push(renamed_node(Node::Array(items), n, d)),
                ..b2
            };
            lemma_alike_set(ag, bg, n, d, from, to, id, Node::Ref(a2.graph.len()));
        }
    } else if tag == HASH {
        if let Ok((count, start)) = reader::spec_read_varint(env.buf, a.pos) {
            lemma_alike_moved(a, b, n, d, from, to, start, a.copy_pos, b.copy_pos);
            lemma_hash_alike(env, at(a, start), at(b, start), count, depth, n, d, from, to);
            crate::laws::lemma_hash_keeps(env, at(a, start), count, depth);
            if let Ok((a2, entries)) = spec_parse_hash(env, at(a, start), count, depth) {
                let b2 = spec_parse_hash(env, at(b, start), count, depth)->Ok_0.0;
                lemma_alike_set(a2, b2, n, d, from, to, id, Node::Hash(entries));
            }
        }
    } else if HASHREF_0 <= tag <= HASHREF_15 {
        let count = (tag - HASHREF_0) as u64;
        lemma_hash_alike(env, a, b, count, depth, n, d, from, to);
        crate::laws::lemma_hash_keeps(env, a, count, depth);
        if let Ok((a2, entries)) = spec_parse_hash(env, a, count, depth) {
            let b2 = spec_parse_hash(env, b, count, depth)->Ok_0.0;
            lemma_alike_push(a2, b2, n, d, from, to, Node::Hash(entries));
            let ag = ParseState { graph: a2.graph.push(Node::Hash(entries)), ..a2 };
            let bg = ParseState {
                graph: b2.graph.push(renamed_node(Node::Hash(entries), n, d)),
                ..b2
            };
            lemma_alike_set(ag, bg, n, d, from, to, id, Node::Ref(a2.graph.len()));
        }
    } else if tag == OBJECT || tag == OBJECT_FREEZE {
        lemma_alike_moved(a, b, n, d, from, to, a.pos, 0, 0);
        let a0 = with_copy_pos(a, 0);
        let b0 = with_copy_pos(b, 0);
        lemma_inner_alike(env, a0, b0, true, depth, n, d, from, to);
        lemma_parse_keeps(env, a0, true, depth);
        if let Ok((named, class)) = spec_parse_inner(env, a0, true, depth) {
            let named_b = spec_parse_inner(env, b0, true, depth)->Ok_0.0;
            lemma_alike_moved(named, named_b, n, d, from, to, named.pos, a.copy_pos, b.copy_pos);
            let ar = with_copy_pos(named, a.copy_pos);
            let br = with_copy_pos(named_b, b.copy_pos);
            lemma_inner_alike(env, ar, br, false, depth, n, d, from, to);
            lemma_parse_keeps(env, ar, false, depth);
            if let Ok((a2, value)) = spec_parse_inner(env, ar, false, depth) {
                let b2 = spec_parse_inner(env, br, false, depth)->Ok_0.0;
                lemma_object_alike(a2, b2, tag == OBJECT_FREEZE, id, class, value, n, d, from, to);
            }
        }
    } else if tag == OBJECTV || tag == OBJECTV_FREEZE {
        lemma_lookup_alike(env, a, b, n, d, from, to);
        if let Ok((named, class)) = spec_lookup(env, a) {
            let named_b = spec_lookup(env, b)->Ok_0.0;
            lemma_inner_alike(env, named, named_b, false, depth, n, d, from, to);
            lemma_parse_keeps(env, named, false, depth);
            if let Ok((a2, value)) = spec_parse_inner(env, named, false, depth) {
                let b2 = spec_parse_inner(env, named_b, false, depth)->Ok_0.0;
                lemma_object_alike(a2, b2, tag == OBJECTV_FREEZE, id, class, value, n, d, from, to);
            }
        }
    } else if tag == REGEXP {
        lemma_inner_alike(env, a, b, false, depth, n, d, from, to);
        lemma_parse_keeps(env, a, false, depth);
        if let Ok((first, pattern)) = spec_parse_inner(env, a, false, depth) {
            let first_b = spec_parse_inner(env, b, false, depth)->Ok_0.0;
            lemma_inner_alike(env, first, first_b, false, depth, n, d, from, to);
            lemma_parse_keeps(env, first, false, depth);
            if let Ok((a2, flags)) = spec_parse_inner(env, first, false, depth) {
                let b2 = spec_parse_inner(env, first_b, false, depth)->Ok_0.0;
                lemma_strings_alike(a2.graph, b2.graph, n, d, pattern);
                lemma_strings_alike(a2.graph, b2.graph, n, d, flags);
                lemma_alike_set(a2, b2, n, d, from, to, id, Node::Regexp { pattern, flags });
            }
        }
    }
}

proof fn lemma_object_alike(
    a: ParseState,
    b: ParseState,
    frozen: bool,
    id: nat,
    class: nat,
    value: nat,
    n: nat,
    d: nat,
    from: nat,
    to: nat,
)
    requires
        alike(a, b, n, d, from, to),
        n <= id < a.graph.len(),
        spec_finish_object(a, frozen, id, class, value) is Ok,
    ensures
        spec_finish_object(b, frozen, id + d, renamed(class, n, d), renamed(value, n, d)) matches Ok(
            (b2, out),
        ) && out == id + d && alike(
            spec_finish_object(a, frozen, id, class, value)->Ok_0.0,
            b2,
            n,
            d,
            from,
            to,
        ) && b2.copy_pos == b.copy_pos,
{
    lemma_strings_alike(a.graph, b.graph, n, d, class);
    if frozen {
        lemma_alike_set(a, b, n, d, from, to, id, Node::ObjectFreeze { class, value });
    } else {
        lemma_alike_set(a, b, n, d, from, to, id, Node::Object { class, value });
    }
}

proof fn lemma_array_alike(
    env: ParseEnv,
    a: ParseState,
    b: ParseState,
    count: u64,
    depth: nat,
    n: nat,
    d: nat,
    from: nat,
    to: nat,
)
    requires
        alike(a, b, n, d, from, to),
        from == 0 ==> to == 0,
        spec_parse_array(env, a, count, depth) is Ok,
    ensures
        steps_alike(
            spec_parse_array(env, a, count, depth),
            spec_parse_array(env, b, count, depth),
            a,
            b,
            n,
            d,
            from,
            to,
        ),
        spec_parse_array(env, b, count, depth) matches Ok((b2, items)) && items == renamed_items(
            spec_parse_array(env, a, count, depth)->Ok_0.1,
            n,
            d,
        ),
    decreases depth, 1nat, count + 1,
{
    lemma_items_alike(env, a, b, count as nat, depth, n, d, from, to);
}

proof fn lemma_items_alike(
    env: ParseEnv,
    a: ParseState,
    b: ParseState,
    count: nat,
    depth: nat,
    n: nat,
    d: nat,
    from: nat,
    to: nat,
)
    requires
        alike(a, b, n, d, from, to),
        from == 0 ==> to == 0,
        spec_parse_items(env, a, count, depth) is Ok,
    ensures
        steps_alike(
            spec_parse_items(env, a, count, depth),
            spec_parse_items(env, b, count, depth),
            a,
            b,
            n,
            d,
            from,
            to,
        ),
        spec_parse_items(env, b, count, depth) matches Ok((b2, items)) && items == renamed_items(
            spec_parse_items(env, a, count, depth)->Ok_0.1,
            n,
            d,
        ),
    decreases depth, 1nat, count,
{
    if count > 0 {
        lemma_items_alike(env, a, b, (count - 1) as nat, depth, n, d, from, to);
        if let Ok((before, items)) = spec_parse_items(env, a, (count - 1) as nat, depth) {
            let (before_b, items_b) = spec_parse_items(env, b, (count - 1) as nat, depth)->Ok_0;
            lemma_inner_alike(env, before, before_b, false, depth, n, d, from, to);
            if let Ok((a2, item)) = spec_parse_inner(env, before, false, depth) {
                assert(renamed_items(items.push(item), n, d) =~= renamed_items(items, n, d).push(
                    renamed(item, n, d),
                ));
            }
        }
    } else {
        assert(renamed_items(Seq::<nat>::empty(), n, d) =~= Seq::<nat>::empty());
    }
}

proof fn lemma_hash_alike(
    env: ParseEnv,
    a: ParseState,
    b: ParseState,
    count: u64,
    depth: nat,
    n: nat,
    d: nat,
    from: nat,
    to: nat,
)
    requires
        alike(a, b, n, d, from, to),
        from == 0 ==> to == 0,
        spec_parse_hash(env, a, count, depth) is Ok,
    ensures
        steps_alike(
            spec_parse_hash(env, a, count, depth),
            spec_parse_hash(env, b, count, depth),
            a,
            b,
            n,
            d,
            from,
            to,
        ),
        spec_parse_hash(env, b, count, depth) matches Ok((b2, entries)) && entries
            == renamed_entries(spec_parse_hash(env, a, count, depth)->Ok_0.1, n, d),
    decreases depth, 1nat, count + 1,
{
    lemma_alike_moved(a, b, n, d, from, to, a.pos, 0, 0);
    let a0 = with_copy_pos(a, 0);
    let b0 = with_copy_pos(b, 0);
    lemma_entries_alike(env, a0, b0, count as nat, depth, n, d, from, to);
    if let Ok((a2, entries)) = spec_parse_entries(env, a0, count as nat, depth) {
        let b2 = spec_parse_entries(env, b0, count as nat, depth)->Ok_0.0;
        lemma_alike_moved(a2, b2, n, d, from, to, a2.pos, a.copy_pos, b.copy_pos);
    }
}

proof fn lemma_entries_alike(
    env: ParseEnv,
    a: ParseState,
    b: ParseState,
    count: nat,
    depth: nat,
    n: nat,
    d: nat,
    from: nat,
    to: nat,
)
    requires
        alike(a, b, n, d, from, to),
        from == 0 ==> to == 0,
        a.copy_pos == 0,
        b.copy_pos == 0,
        spec_parse_entries(env, a, count, depth) is Ok,
    ensures
        steps_alike(
            spec_parse_entries(env, a, count, depth),
            spec_parse_entries(env, b, count, depth),
            a,
            b,
            n,
            d,
            from,
            to,
        ),
        spec_parse_entries(env, b, count, depth) matches Ok((b2, entries)) && entries
            == renamed_entries(spec_parse_entries(env, a, count, depth)->Ok_0.1, n, d),
    decreases depth, 1nat, count,
{
    if count > 0 {
        lemma_entries_alike(env, a, b, (count - 1) as nat, depth, n, d, from, to);
        if let Ok((before, entries)) = spec_parse_entries(env, a, (count - 1) as nat, depth) {
            let (before_b, entries_b) = spec_parse_entries(env, b, (count - 1) as nat, depth)->Ok_0;
            lemma_str_alike(env, before, before_b, true, n, d, from, to);
            crate::laws::lemma_key_keeps(env, before, true);
            if let Ok((keyed, key)) = spec_parse_str(env, before) {
                let keyed_b = spec_parse_str(env, before_b)->Ok_0.0;
                lemma_alike_moved(before, before_b, n, d, from, to, keyed.pos, 0, 0);
                assert(keyed == (ParseState { pos: keyed.pos, copy_pos: 0, ..before }));
                lemma_inner_alike(env, keyed, keyed_b, false, depth, n, d, from, to);
                if let Ok((a2, value)) = spec_parse_inner(env, keyed, false, depth) {
                    assert(renamed_entries(entries.insert(key, value), n, d) =~= renamed_entries(
                        entries,
                        n,
                        d,
                    ).insert(key, renamed(value, n, d)));
                }
            }
        }
    } else {
        assert(renamed_entries(Map::<Seq<u8>, nat>::empty(), n, d) =~= Map::<
            Seq<u8>,
            nat,
        >::empty());
    }
}

/// What is parsed twice comes out alike.
///
/// Take a state `a` in which a value is parsed, and a state `b` at the same
/// position that has the cells of `a`, renamed, perhaps more cells, and tracks
/// what `a` tracks; let `b` stand inside a copy only if `a` does. Then the
/// value is parsed in `b` as well. The cells that the two parses make
/// correspond one to one: each holds what its namesake holds, with the cells
/// it refers to renamed. The value of the one is the namesake of the value of
/// the other, and the same positions are tracked, to namesakes.
pub proof fn lemma_parse_alike(
    env: ParseEnv,
    a: ParseState,
    b: ParseState,
    force_track: bool,
    depth: nat,
    n: nat,
    d: nat,
)
    requires
        b.pos == a.pos,
        a.copy_pos == 0 ==> b.copy_pos == 0,
        cells_alike(a.graph, b.graph, n, d),
        tracks_alike(a.track, b.track, n, d),
        spec_parse_inner(env, a, force_track, depth) is Ok,
    ensures
        spec_parse_inner(env, b, force_track, depth) matches Ok((b2, out)) && spec_parse_inner(
            env,
            a,
            force_track,
            depth,
        ) matches Ok((a2, cell)) && out == renamed(cell, n, d) && b2.pos == a2.pos && cells_alike(
            a2.graph,
            b2.graph,
            n,
            d,
        ) && tracks_alike(a2.track, b2.track, n, d),
{
    lemma_inner_alike(env, a, b, force_track, depth, n, d, a.copy_pos, b.copy_pos);
}

/// The state in which the target of a copy with the offset `p` is parsed, when
/// the copy's tag was read in `st` and its offset ends at `end`.
pub open spec fn copy_target(st: ParseState, p: usize, end: nat) -> ParseState {
    ParseState {
        pos: (p - 1) as nat,
        copy_pos: end,
        track: st.track,
        graph: st.graph.push(Node::Undef),
    }
}

/// Whether an untracked `COPY` tag with the offset `p` stands at `st.pos`,
/// outside any copy, and its offset ends at `end`.
pub open spec fn copy_at(env: ParseEnv, st: ParseState, p: usize, end: nat) -> bool {
    &&& st.copy_pos == 0
    &&& p > 0
    &&& reader::spec_read_tag(env.buf, st.pos) matches Ok((byte, pos)) && byte & TYPE_MASK == COPY
        && byte & TRACK_BIT == 0 && reader::spec_read_varlen(env.buf, pos) == Ok::<
        (usize, nat),
        reader::Error,
    >((p, end))
}

/// Two copies of one offset are alike.
///
/// Let an untracked copy with the offset `p` be parsed in `first`, and let a
/// copy with the same offset stand in `later`, a state that has the cells of
/// `first`, the one made for the first copy's tag, perhaps more, and tracks
/// what `first` tracked, to the cells it was tracked to. Then the later copy
/// is parsed too, and what it makes is what the first made, cell for cell,
/// with the cells renamed: the two values are not one cell, and are alike.
pub proof fn lemma_copies_alike(
    env: ParseEnv,
    first: ParseState,
    later: ParseState,
    depth: nat,
    p: usize,
    end_first: nat,
    end_later: nat,
)
    requires
        depth > 0,
        copy_at(env, first, p, end_first),
        copy_at(env, later, p, end_later),
        cells_alike(
            first.graph.push(Node::Undef),
            later.graph.push(Node::Undef),
            first.graph.len() + 1,
            (later.graph.len() - first.graph.len()) as nat,
        ),
        tracks_alike(
            first.track,
            later.track,
            first.graph.len() + 1,
            (later.graph.len() - first.graph.len()) as nat,
        ),
        spec_parse_inner(env, first, false, depth) is Ok,
    ensures
        spec_parse_inner(env, later, false, depth) matches Ok((done, out)) && spec_parse_inner(
            env,
            first,
            false,
            depth,
        ) matches Ok((made, cell)) && out == renamed(
            cell,
            first.graph.len() + 1,
            (later.graph.len() - first.graph.len()) as nat,
        ) && cells_alike(
            made.graph,
            done.graph,
            first.graph.len() + 1,
            (later.graph.len() - first.graph.len()) as nat,
        ),
{
    let n = first.graph.len() + 1;
    let d = (later.graph.len() - first.graph.len()) as nat;
    let (byte1, pos1) = reader::spec_read_tag(env.buf, first.pos)->Ok_0;
    let (byte2, pos2) = reader::spec_read_tag(env.buf, later.pos)->Ok_0;
    reader::lemma_varlen_end(env.buf, pos1);
    reader::lemma_varlen_end(env.buf, pos2);
    crate::laws::lemma_copy_is_target(env, first, depth, byte1, pos1, p, end_first);
    crate::laws::lemma_copy_is_target(env, later, depth, byte2, pos2, p, end_later);
    let a = copy_target(first, p, end_first);
    let b = copy_target(later, p, end_later);
    lemma_parse_alike(env, a, b, false, (depth - 1) as nat, n, d);
}

/// A copy is alike the value it copies.
///
/// Let a value be parsed in `early`, and let it be parsed as well when `early`
/// stands inside a copy: it holds no copy of its own, but in hashes and class
/// names. Let an untracked copy stand in `later`, with the place of that value
/// as its target, in a state that has the cells of `early`, perhaps more, and
/// tracks what `early` tracked, to the cells it was tracked to. Then the copy
/// is parsed, and what it makes is what the parse of the value itself makes,
/// cell for cell, with the cells renamed.
pub proof fn lemma_copy_alike_target(
    env: ParseEnv,
    early: ParseState,
    later: ParseState,
    depth: nat,
    p: usize,
    end: nat,
)
    requires
        depth > 0,
        copy_at(env, later, p, end),
        early.pos == p - 1,
        early.copy_pos == 0,
        cells_alike(
            early.graph,
            later.graph.push(Node::Undef),
            early.graph.len(),
            (later.graph.len() + 1 - early.graph.len()) as nat,
        ),
        tracks_alike(
            early.track,
            later.track,
            early.graph.len(),
            (later.graph.len() + 1 - early.graph.len()) as nat,
        ),
        spec_parse_inner(env, with_copy_pos(early, end), false, (depth - 1) as nat) is Ok,
    ensures
        spec_parse_inner(env, later, false, depth) matches Ok((done, out)) && spec_parse_inner(
            env,
            early,
            false,
            (depth - 1) as nat,
        ) matches Ok((made, cell)) && out == renamed(
            cell,
            early.graph.len(),
            (later.graph.len() + 1 - early.graph.len()) as nat,
        ) && cells_alike(
            made.graph,
            done.graph,
            early.graph.len(),
            (later.graph.len() + 1 - early.graph.len()) as nat,
        ),
{
    let n = early.graph.len();
    let d = (later.graph.len() + 1 - early.graph.len()) as nat;
    let (byte, pos) = reader::spec_read_tag(env.buf, later.pos)->Ok_0;
    reader::lemma_varlen_end(env.buf, pos);
    crate::laws::lemma_copy_is_target(env, later, depth, byte, pos, p, end);
    let inside = with_copy_pos(early, end);
    let b = copy_target(later, p, end);
    lemma_parse_alike(env, inside, b, false, (depth - 1) as nat, n, d);
    // the value itself, parsed outside a copy, is what it is inside one
    assert(cells_alike(inside.graph, early.graph, n, 0)) by {
        assert forall|i: int| n <= i < inside.graph.len() implies early.graph[i + 0]
            == renamed_node(#[trigger] inside.graph[i], n, 0) by {}
    }
    assert(tracks_alike(inside.track, early.track, n, 0)) by {
        assert forall|k: usize| #[trigger] inside.track.contains_key(k) implies early.track[k]
            == renamed(inside.track[k], n, 0) by {}
    }
    lemma_inner_alike(env, inside, early, false, (depth - 1) as nat, n, 0, end, 0);
    let (m1, c1) = spec_parse_inner(env, inside, false, (depth - 1) as nat)->Ok_0;
    let (m0, c0) = spec_parse_inner(env, early, false, (depth - 1) as nat)->Ok_0;
    let (done, out) = spec_parse_inner(env, b, false, (depth - 1) as nat)->Ok_0;
    lemma_renamed_by_nothing(m1.graph, m0.graph, n);
    assert(m0.graph =~= m1.graph);
}

/// Cells that are alike with nothing renamed are the same.
proof fn lemma_renamed_by_nothing(a: Seq<Node>, b: Seq<Node>, n: nat)
    requires
        cells_alike(a, b, n, 0),
    ensures
        a =~= b,
{
    assert forall|i: int| 0 <= i < a.len() implies a[i] == b[i] by {
        if i >= n {
            assert(b[i + 0] == renamed_node(a[i], n, 0));
            lemma_node_renamed_by_nothing(a[i], n);
        }
    }
}

proof fn lemma_node_renamed_by_nothing(node: Node, n: nat)
    ensures
        renamed_node(node, n, 0) == node,
{
    match node {
        Node::Array(items) => {
            assert(renamed_items(items, n, 0) =~= items);
        },
        Node::Hash(entries) => {
            assert(renamed_entries(entries, n, 0) =~= entries);
        },
        _ => {},
    }
}

} // verus!
