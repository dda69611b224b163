//! What holds of every parse, proved from the model in [`crate::parser`].
use vstd::prelude::*;
use crate::constants::ALIAS;
use crate::constants::COPY;
use crate::constants::REFP;
use crate::constants::TRACK_BIT;
use crate::constants::TYPE_MASK;
use crate::parser::at;
use crate::parser::extends;
use crate::parser::is_leaf;
use crate::parser::set_node;
use crate::parser::spec_begin_copy;
use crate::parser::spec_fill;
use crate::parser::spec_lookup;
use crate::parser::spec_parse_array;
use crate::parser::spec_parse_entries;
use crate::parser::spec_parse_hash;
use crate::parser::spec_parse_inner;
use crate::parser::spec_parse_items;
use crate::parser::spec_parse_str;
use crate::parser::spec_str;
use crate::parser::with_copy_pos;
use crate::parser::Error;
use crate::parser::Node;
use crate::parser::ParseEnv;
use crate::parser::ParseState;
use crate::reader;

verus! {

/// What a successful step leaves as it was: the copy cursor, every cell that
/// existed before, but for cell `except`, and every position that was tracked
/// (which may resolve to another cell afterwards).
pub open spec fn keeps(before: ParseState, after: ParseState, except: int) -> bool {
    &&& after.copy_pos == before.copy_pos
    &&& extends(before.graph, after.graph, except)
    &&& forall|k: usize| #[trigger]
        before.track.contains_key(k) ==> after.track.contains_key(k)
}

/// A hash key that is parsed moves the position and changes nothing else: no
/// cell is made, nothing is tracked, and the copy cursor is left as it was found.
pub proof fn lemma_key_keeps(env: ParseEnv, st: ParseState, outer: bool)
    ensures
        spec_str(env, st, outer) matches Ok((done, bytes)) ==> keeps(st, done, -1) && done.graph
            == st.graph && done.track == st.track,
    decreases outer as int,
{
    if let Ok((byte, pos)) = reader::spec_read_tag(env.buf, st.pos) {
        let tag = byte & TYPE_MASK;
        if tag == COPY && outer {
            if let Ok(inside) = spec_begin_copy(env, at(st, pos)) {
                lemma_key_keeps(env, inside, false);
            }
        }
    }
}

proof fn lemma_inner_keeps(env: ParseEnv, st: ParseState, force_track: bool, depth: nat)
    ensures
        spec_parse_inner(env, st, force_track, depth) matches Ok((done, out)) ==> keeps(
            st,
            done,
            -1,
        ) && st.graph.len() < done.graph.len(),
    decreases depth, 0nat, 0nat,
{
    if depth > 0 {
        if let Ok((byte, pos)) = reader::spec_read_tag(env.buf, st.pos) {
            let tag = byte & TYPE_MASK;
            let kept = force_track || byte & TRACK_BIT != 0;
            let id = st.graph.len();
            let made = ParseState {
                pos,
                copy_pos: st.copy_pos,
                track: if kept {
                    st.track.insert(pos as usize, id)
                } else {
                    st.track
                },
                graph: st.graph.push(Node::Undef),
            };
            lemma_fill_keeps(env, made, tag, id, (depth - 1) as nat);
            if let Ok((filled, out)) = spec_fill(env, made, tag, id, (depth - 1) as nat) {
                assert forall|k: usize| st.track.contains_key(k) implies filled.track.contains_key(
                    k,
                ) by {
                    assert(made.track.contains_key(k));
                }
            }
        }
    }
}

proof fn lemma_fill_keeps(env: ParseEnv, st: ParseState, tag: u8, id: nat, depth: nat)
    requires
        id < st.graph.len(),
    ensures
        spec_fill(env, st, tag, id, depth) matches Ok((done, out)) ==> keeps(st, done, id as int),
    decreases depth, 2nat, 0nat,
{
    if is_leaf(tag) {
    } else if tag == crate::constants::REFN || tag == crate::constants::WEAKEN {
        lemma_inner_keeps(env, st, false, depth);
    } else if tag == REFP {
    } else if tag == ALIAS {
    } else if tag == COPY {
        if let Ok(inside) = spec_begin_copy(env, st) {
            lemma_inner_keeps(env, inside, false, depth);
        }
    } else if tag == crate::constants::ARRAY {
        if let Ok((count, start)) = reader::spec_read_varint(env.buf, st.pos) {
            lemma_array_keeps(env, at(st, start), count, depth);
        }
    } else if crate::constants::ARRAYREF_0 <= tag <= crate::constants::ARRAYREF_15 {
        lemma_array_keeps(env, st, (tag - crate::constants::ARRAYREF_0) as u64, depth);
    } else if tag == crate::constants::HASH {
        if let Ok((count, start)) = reader::spec_read_varint(env.buf, st.pos) {
            lemma_hash_keeps(env, at(st, start), count, depth);
        }
    } else if crate::constants::HASHREF_0 <= tag <= crate::constants::HASHREF_15 {
        lemma_hash_keeps(env, st, (tag - crate::constants::HASHREF_0) as u64, depth);
    } else if tag == crate::constants::OBJECT || tag == crate::constants::OBJECT_FREEZE {
        lemma_inner_keeps(env, with_copy_pos(st, 0), true, depth);
        if let Ok((named, class)) = spec_parse_inner(env, with_copy_pos(st, 0), true, depth) {
            lemma_inner_keeps(env, with_copy_pos(named, st.copy_pos), false, depth);
        }
    } else if tag == crate::constants::OBJECTV || tag == crate::constants::OBJECTV_FREEZE {
        if let Ok((named, class)) = spec_lookup(env, st) {
            lemma_inner_keeps(env, named, false, depth);
        }
    } else if tag == crate::constants::REGEXP {
        lemma_inner_keeps(env, st, false, depth);
        if let Ok((first, pattern)) = spec_parse_inner(env, st, false, depth) {
            lemma_inner_keeps(env, first, false, depth);
        }
    }
}

/// The items of an array that are parsed add cells and change none that was
/// there; they leave the copy cursor as they found it, and what was tracked
/// stays tracked.
pub proof fn lemma_array_keeps(env: ParseEnv, st: ParseState, count: u64, depth: nat)
    ensures
        spec_parse_array(env, st, count, depth) matches Ok((done, items)) ==> keeps(st, done, -1),
    decreases depth, 1nat, count + 1,
{
    if count <= env.cfg.max_array_size {
        lemma_items_keep(env, st, count as nat, depth);
    }
}

proof fn lemma_items_keep(env: ParseEnv, st: ParseState, n: nat, depth: nat)
    ensures
        spec_parse_items(env, st, n, depth) matches Ok((done, items)) ==> keeps(st, done, -1),
    decreases depth, 1nat, n,
{
    if n > 0 {
        lemma_items_keep(env, st, (n - 1) as nat, depth);
        if let Ok((before, items)) = spec_parse_items(env, st, (n - 1) as nat, depth) {
            lemma_inner_keeps(env, before, false, depth);
        }
    }
}

/// The entries of a hash that are parsed add cells and change none that was
/// there; the copy cursor, put aside for the entries, is back where it was,
/// and what was tracked stays tracked.
pub proof fn lemma_hash_keeps(env: ParseEnv, st: ParseState, count: u64, depth: nat)
    ensures
        spec_parse_hash(env, st, count, depth) matches Ok((done, entries)) ==> keeps(st, done, -1),
    decreases depth, 1nat, count + 1,
{
    if count <= env.cfg.max_hash_size {
        let start = with_copy_pos(st, 0);
        lemma_entries_keep(env, start, count as nat, depth);
        if let Ok((done, entries)) = spec_parse_entries(env, start, count as nat, depth) {
            assert forall|k: usize| st.track.contains_key(k) implies done.track.contains_key(k) by {
                assert(start.track.contains_key(k));
            }
            assert forall|i: int| 0 <= i < st.graph.len() implies done.graph[i] == st.graph[i] by {
                assert(done.graph[i] == start.graph[i]);
            }
        }
    }
}

proof fn lemma_entries_keep(env: ParseEnv, st: ParseState, n: nat, depth: nat)
    ensures
        spec_parse_entries(env, st, n, depth) matches Ok((done, entries)) ==> keeps(st, done, -1),
    decreases depth, 1nat, n,
{
    if n > 0 {
        lemma_entries_keep(env, st, (n - 1) as nat, depth);
        if let Ok((before, entries)) = spec_parse_entries(env, st, (n - 1) as nat, depth) {
            lemma_key_keeps(env, before, true);
            if let Ok((keyed, key)) = spec_parse_str(env, before) {
                lemma_inner_keeps(env, keyed, false, depth);
            }
        }
    }
}

/// A value that is parsed adds at least one cell and changes none that was
/// there: the cells of the values before it stay as they were. It leaves the
/// copy cursor as it found it, and what was tracked stays tracked.
pub proof fn lemma_parse_keeps(env: ParseEnv, st: ParseState, force_track: bool, depth: nat)
    ensures
        spec_parse_inner(env, st, force_track, depth) matches Ok((done, out)) ==> keeps(
            st,
            done,
            -1,
        ) && st.graph.len() < done.graph.len(),
{
    lemma_inner_keeps(env, st, force_track, depth);
}

/// Whether the `k` bytes of `buf` from `pos` on are all padding.
pub open spec fn padded(buf: Seq<u8>, pos: nat, k: nat) -> bool {
    &&& pos + k <= buf.len()
    &&& forall|i: int| pos <= i < pos + k ==> reader::is_pad(#[trigger] buf[i])
}

/// Padding before a tag is not seen.
pub proof fn lemma_read_tag_skips_padding(buf: Seq<u8>, pos: nat, k: nat)
    requires
        padded(buf, pos, k),
    ensures
        reader::spec_read_tag(buf, pos) == reader::spec_read_tag(buf, pos + k),
    decreases k,
{
    if k > 0 {
        assert(reader::is_pad(buf[pos as int]));
        reader::lemma_read_tag_skips_pad(buf, pos);
        assert forall|i: int| pos + 1 <= i < pos + 1 + (k - 1) implies reader::is_pad(
            #[trigger] buf[i],
        ) by {}
        lemma_read_tag_skips_padding(buf, pos + 1, (k - 1) as nat);
    }
}

/// Padding before a value is not seen: a value that is parsed from the first
/// of some padding bytes is the value that is parsed from the byte after the
/// last of them, in the same state but for the position. It is tracked under
/// the same position, the one after its tag byte.
pub proof fn lemma_parse_skips_padding(
    env: ParseEnv,
    st: ParseState,
    force_track: bool,
    depth: nat,
    k: nat,
)
    requires
        padded(env.buf, st.pos, k),
    ensures
        spec_parse_inner(env, st, force_track, depth) == spec_parse_inner(
            env,
            at(st, st.pos + k),
            force_track,
            depth,
        ),
{
    lemma_read_tag_skips_padding(env.buf, st.pos, k);
}

/// Padding before a hash key is not seen either.
pub proof fn lemma_key_skips_padding(env: ParseEnv, st: ParseState, k: nat)
    requires
        padded(env.buf, st.pos, k),
    ensures
        spec_parse_str(env, st) == spec_parse_str(env, at(st, st.pos + k)),
{
    lemma_read_tag_skips_padding(env.buf, st.pos, k);
}

/// A copy is the value at its target: where an untracked `COPY` tag with the
/// offset `p` stands outside any copy, the value is the cell that parsing at
/// the byte before `p` gives, one value deeper, and reading goes on after the
/// offset. An error of that parse is the error of the copy. The cell made for the tag itself stays `Undef` and is
/// not referred to.
pub proof fn lemma_copy_is_target(
    env: ParseEnv,
    st: ParseState,
    depth: nat,
    byte: u8,
    pos: nat,
    p: usize,
    end: nat,
)
    requires
        depth > 0,
        st.copy_pos == 0,
        reader::spec_read_tag(env.buf, st.pos) == Ok::<(u8, nat), reader::Error>((byte, pos)),
        byte & TYPE_MASK == COPY,
        byte & TRACK_BIT == 0,
        reader::spec_read_varlen(env.buf, pos) == Ok::<(usize, nat), reader::Error>((p, end)),
        p > 0,
    ensures
        ({
            let target = ParseState {
                pos: (p - 1) as nat,
                copy_pos: end,
                track: st.track,
                graph: st.graph.push(Node::Undef),
            };
            match spec_parse_inner(env, target, false, (depth - 1) as nat) {
                Ok((done, out)) => spec_parse_inner(env, st, false, depth) == Ok::<
                    (ParseState, nat),
                    Error,
                >((ParseState { pos: end, copy_pos: 0, ..done }, out)) && done.graph[st.graph.len() as int]
                    == Node::Undef,
                Err(e) => spec_parse_inner(env, st, false, depth) == Err::<
                    (ParseState, nat),
                    Error,
                >(e),
            }
        }),
{
    let target = ParseState {
        pos: (p - 1) as nat,
        copy_pos: end,
        track: st.track,
        graph: st.graph.push(Node::Undef),
    };
    lemma_inner_keeps(env, target, false, (depth - 1) as nat);
    assert(!is_leaf(COPY));
}

/// References by offset share their target: an `ALIAS` of a tracked offset is
/// the tracked cell itself, and a `REFP` is a new cell that refers to it. So
/// two such tags with one offset, parsed while that offset resolves to one
/// cell, give that same cell.
pub proof fn lemma_backref_is_tracked_cell(
    env: ParseEnv,
    st: ParseState,
    force_track: bool,
    depth: nat,
    byte: u8,
    pos: nat,
    p: usize,
    end: nat,
)
    requires
        depth > 0,
        reader::spec_read_tag(env.buf, st.pos) == Ok::<(u8, nat), reader::Error>((byte, pos)),
        byte & TYPE_MASK == REFP || byte & TYPE_MASK == ALIAS,
        reader::spec_read_varlen(env.buf, pos) == Ok::<(usize, nat), reader::Error>((p, end)),
        st.track.contains_key(p),
        p != pos,
        env.buf.len() <= usize::MAX,
    ensures
        spec_parse_inner(env, st, force_track, depth) matches Ok((done, out)) && done.pos == end
            && if byte & TYPE_MASK == ALIAS {
            out == st.track[p]
        } else {
            out == st.graph.len() && done.graph[out as int] == Node::Ref(st.track[p])
        },
{
    reader::lemma_read_tag_found(env.buf, st.pos);
    assert(!is_leaf(REFP) && !is_leaf(ALIAS));
}

/// Whether the items of an array are among the first `n` cells.
pub open spec fn items_below(items: Seq<nat>, n: nat) -> bool {
    forall|i: int| 0 <= i < items.len() ==> #[trigger] items[i] < n
}

/// Whether the values of a hash are among the first `n` cells.
pub open spec fn entries_below(entries: Map<Seq<u8>, nat>, n: nat) -> bool {
    forall|k: Seq<u8>| #[trigger] entries.contains_key(k) ==> entries[k] < n
}

/// Whether every cell that `node` refers to is among the first `n` cells.
pub open spec fn node_closed(node: Node, n: nat) -> bool {
    match node {
        Node::Ref(o) => o < n,
        Node::WeakRef(o) => o < n,
        Node::Array(items) => items_below(items, n),
        Node::Hash(entries) => entries_below(entries, n),
        Node::Object { class, value } => class < n && value < n,
        Node::ObjectFreeze { class, value } => class < n && value < n,
        Node::Regexp { pattern, flags } => pattern < n && flags < n,
        _ => true,
    }
}

/// Whether the cells of `st` refer to cells of `st` only, and every tracked
/// position resolves to one of them.
pub open spec fn closed(st: ParseState) -> bool {
    &&& forall|i: int| 0 <= i < st.graph.len() ==> node_closed(#[trigger] st.graph[i], st.graph.len())
    &&& forall|k: usize| #[trigger] st.track.contains_key(k) ==> st.track[k] < st.graph.len()
}

proof fn lemma_node_closed_grows(node: Node, n: nat, m: nat)
    requires
        node_closed(node, n),
        n <= m,
    ensures
        node_closed(node, m),
{
    match node {
        Node::Array(items) => {
            assert forall|i: int| 0 <= i < items.len() implies #[trigger] items[i] < m by {
                assert(items[i] < n);
            }
        },
        Node::Hash(entries) => {
            assert forall|k: Seq<u8>| #[trigger] entries.contains_key(k) implies entries[k] < m by {
                assert(entries[k] < n);
            }
        },
        _ => {},
    }
}

/// A closed state stays closed when a cell is added whose node is closed.
proof fn lemma_push_closed(st: ParseState, node: Node)
    requires
        closed(st),
        node_closed(node, st.graph.len() + 1),
    ensures
        closed(ParseState { graph: st.graph.push(node), ..st }),
{
    let after = ParseState { graph: st.graph.push(node), ..st };
    assert forall|i: int| 0 <= i < after.graph.len() implies node_closed(
        #[trigger] after.graph[i],
        after.graph.len(),
    ) by {
        if i < st.graph.len() {
            assert(after.graph[i] == st.graph[i]);
            lemma_node_closed_grows(st.graph[i], st.graph.len(), after.graph.len());
        }
    }
    assert forall|k: usize| #[trigger] after.track.contains_key(k) implies after.track[k]
        < after.graph.len() by {
        assert(st.track.contains_key(k));
    }
}

/// A closed state stays closed when a cell is set to a node that is closed.
proof fn lemma_set_closed(st: ParseState, id: nat, node: Node)
    requires
        closed(st),
        id < st.graph.len(),
        node_closed(node, st.graph.len()),
    ensures
        closed(set_node(st, id, node)),
{
    let after = set_node(st, id, node);
    assert forall|i: int| 0 <= i < after.graph.len() implies node_closed(
        #[trigger] after.graph[i],
        after.graph.len(),
    ) by {
        if i != id {
            assert(after.graph[i] == st.graph[i]);
        }
    }
    assert forall|k: usize| #[trigger] after.track.contains_key(k) implies after.track[k]
        < after.graph.len() by {
        assert(st.track.contains_key(k));
    }
}

/// A closed state stays closed when a position is tracked to a cell of the state.
proof fn lemma_track_closed(st: ParseState, key: usize, id: nat)
    requires
        closed(st),
        id < st.graph.len(),
    ensures
        closed(ParseState { track: st.track.insert(key, id), ..st }),
{
    let after = ParseState { track: st.track.insert(key, id), ..st };
    assert forall|i: int| 0 <= i < after.graph.len() implies node_closed(
        #[trigger] after.graph[i],
        after.graph.len(),
    ) by {
        assert(after.graph[i] == st.graph[i]);
    }
    assert forall|k: usize| #[trigger] after.track.contains_key(k) implies after.track[k]
        < after.graph.len() by {
        if k != key {
            assert(st.track.contains_key(k));
        }
    }
}

/// Moving the cursors does not touch what is closed.
proof fn lemma_moved_closed(st: ParseState, pos: nat, copy_pos: nat)
    requires
        closed(st),
    ensures
        closed(ParseState { pos, copy_pos, ..st }),
{
    let after = ParseState { pos, copy_pos, ..st };
    assert forall|i: int| 0 <= i < after.graph.len() implies node_closed(
        #[trigger] after.graph[i],
        after.graph.len(),
    ) by {
        assert(after.graph[i] == st.graph[i]);
    }
    assert forall|k: usize| #[trigger] after.track.contains_key(k) implies after.track[k]
        < after.graph.len() by {
        assert(st.track.contains_key(k));
    }
}

proof fn lemma_leaf_closed(env: ParseEnv, st: ParseState, tag: u8, id: nat)
    requires
        closed(st),
        id < st.graph.len(),
        is_leaf(tag),
    ensures
        crate::parser::spec_leaf(env, st, tag, id) matches Ok(done) ==> closed(done)
            && done.graph.len() == st.graph.len(),
{
    if let Ok(done) = crate::parser::spec_leaf(env, st, tag, id) {
        let moved = ParseState { pos: done.pos, copy_pos: st.copy_pos, ..st };
        lemma_moved_closed(st, done.pos, st.copy_pos);
        lemma_set_closed(moved, id, done.graph[id as int]);
        assert(done.graph =~= moved.graph.update(id as int, done.graph[id as int]));
    }
}

proof fn lemma_inner_closed(env: ParseEnv, st: ParseState, force_track: bool, depth: nat)
    requires
        closed(st),
    ensures
        spec_parse_inner(env, st, force_track, depth) matches Ok((done, out)) ==> closed(done)
            && out < done.graph.len() && st.graph.len() <= done.graph.len(),
    decreases depth, 0nat, 0nat,
{
    if depth > 0 {
        if let Ok((byte, pos)) = reader::spec_read_tag(env.buf, st.pos) {
            let tag = byte & TYPE_MASK;
            let kept = force_track || byte & TRACK_BIT != 0;
            let id = st.graph.len();
            let pushed = ParseState { graph: st.graph.push(Node::Undef), ..st };
            lemma_push_closed(st, Node::Undef);
            let with_track = if kept {
                ParseState { track: pushed.track.insert(pos as usize, id), ..pushed }
            } else {
                pushed
            };
            if kept {
                lemma_track_closed(pushed, pos as usize, id);
            }
            let made = ParseState { pos, copy_pos: st.copy_pos, ..with_track };
            lemma_moved_closed(with_track, pos, st.copy_pos);
            lemma_fill_closed(env, made, tag, id, (depth - 1) as nat);
            if let Ok((filled, out)) = spec_fill(env, made, tag, id, (depth - 1) as nat) {
                if kept && (tag == ALIAS || tag == COPY) {
                    lemma_track_closed(filled, pos as usize, out);
                }
            }
        }
    }
}

proof fn lemma_fill_closed(env: ParseEnv, st: ParseState, tag: u8, id: nat, depth: nat)
    requires
        closed(st),
        id < st.graph.len(),
    ensures
        spec_fill(env, st, tag, id, depth) matches Ok((done, out)) ==> closed(done) && out
            < done.graph.len() && st.graph.len() <= done.graph.len(),
    decreases depth, 2nat, 0nat,
{
    if is_leaf(tag) {
        lemma_leaf_closed(env, st, tag, id);
    } else if tag == crate::constants::REFN || tag == crate::constants::WEAKEN {
        lemma_inner_closed(env, st, false, depth);
        if let Ok((done, child)) = spec_parse_inner(env, st, false, depth) {
            lemma_set_closed(
                done,
                id,
                if tag == crate::constants::REFN {
                    Node::Ref(child)
                } else {
                    Node::WeakRef(child)
                },
            );
        }
    } else if tag == REFP {
        if let Ok((done, target)) = spec_lookup(env, st) {
            lemma_moved_closed(st, done.pos, st.copy_pos);
            lemma_set_closed(done, id, Node::Ref(target));
        }
    } else if tag == ALIAS {
        if let Ok((done, target)) = spec_lookup(env, st) {
            lemma_moved_closed(st, done.pos, st.copy_pos);
        }
    } else if tag == COPY {
        if let Ok(inside) = spec_begin_copy(env, st) {
            lemma_moved_closed(st, inside.pos, inside.copy_pos);
            lemma_inner_closed(env, inside, false, depth);
            if let Ok((done, out)) = spec_parse_inner(env, inside, false, depth) {
                lemma_moved_closed(done, done.copy_pos, 0);
            }
        }
    } else if tag == crate::constants::ARRAY {
        if let Ok((count, start)) = reader::spec_read_varint(env.buf, st.pos) {
            lemma_moved_closed(st, start, st.copy_pos);
            lemma_array_closed(env, at(st, start), count, depth);
            if let Ok((done, items)) = spec_parse_array(env, at(st, start), count, depth) {
                lemma_set_closed(done, id, Node::Array(items));
            }
        }
    } else if crate::constants::ARRAYREF_0 <= tag <= crate::constants::ARRAYREF_15 {
        let count = (tag - crate::constants::ARRAYREF_0) as u64;
        lemma_array_closed(env, st, count, depth);
        if let Ok((done, items)) = spec_parse_array(env, st, count, depth) {
            lemma_node_closed_grows(Node::Array(items), done.graph.len(), done.graph.len() + 1);
            lemma_push_closed(done, Node::Array(items));
            let pushed = ParseState { graph: done.graph.push(Node::Array(items)), ..done };
            lemma_set_closed(pushed, id, Node::Ref(done.graph.len()));
        }
    } else if tag == crate::constants::HASH {
        if let Ok((count, start)) = reader::spec_read_varint(env.buf, st.pos) {
            lemma_moved_closed(st, start, st.copy_pos);
            lemma_hash_closed(env, at(st, start), count, depth);
            if let Ok((done, entries)) = spec_parse_hash(env, at(st, start), count, depth) {
                lemma_set_closed(done, id, Node::Hash(entries));
            }
        }
    } else if crate::constants::HASHREF_0 <= tag <= crate::constants::HASHREF_15 {
        let count = (tag - crate::constants::HASHREF_0) as u64;
        lemma_hash_closed(env, st, count, depth);
        if let Ok((done, entries)) = spec_parse_hash(env, st, count, depth) {
            lemma_node_closed_grows(Node::Hash(entries), done.graph.len(), done.graph.len() + 1);
            lemma_push_closed(done, Node::Hash(entries));
            let pushed = ParseState { graph: done.graph.push(Node::Hash(entries)), ..done };
            lemma_set_closed(pushed, id, Node::Ref(done.graph.len()));
        }
    } else if tag == crate::constants::OBJECT || tag == crate::constants::OBJECT_FREEZE {
        lemma_moved_closed(st, st.pos, 0);
        lemma_inner_closed(env, with_copy_pos(st, 0), true, depth);
        if let Ok((named, class)) = spec_parse_inner(env, with_copy_pos(st, 0), true, depth) {
            lemma_moved_closed(named, named.pos, st.copy_pos);
            let resumed = with_copy_pos(named, st.copy_pos);
            lemma_inner_closed(env, resumed, false, depth);
            if let Ok((done, value)) = spec_parse_inner(env, resumed, false, depth) {
                lemma_object_closed(done, tag == crate::constants::OBJECT_FREEZE, id, class, value);
            }
        }
    } else if tag == crate::constants::OBJECTV || tag == crate::constants::OBJECTV_FREEZE {
        if let Ok((named, class)) = spec_lookup(env, st) {
            lemma_moved_closed(st, named.pos, st.copy_pos);
            lemma_inner_closed(env, named, false, depth);
            if let Ok((done, value)) = spec_parse_inner(env, named, false, depth) {
                lemma_object_closed(done, tag == crate::constants::OBJECTV_FREEZE, id, class, value);
            }
        }
    } else if tag == crate::constants::REGEXP {
        lemma_inner_closed(env, st, false, depth);
        if let Ok((first, pattern)) = spec_parse_inner(env, st, false, depth) {
            lemma_inner_closed(env, first, false, depth);
            if let Ok((done, flags)) = spec_parse_inner(env, first, false, depth) {
                if crate::parser::spec_regexp_result(done.graph, pattern, flags) is Ok {
                    lemma_set_closed(done, id, Node::Regexp { pattern, flags });
                }
            }
        }
    }
}

proof fn lemma_object_closed(st: ParseState, frozen: bool, id: nat, class: nat, value: nat)
    requires
        closed(st),
        id < st.graph.len(),
        value < st.graph.len(),
    ensures
        crate::parser::spec_finish_object(st, frozen, id, class, value) matches Ok((done, out))
            ==> closed(done) && out < done.graph.len() && done.graph.len() == st.graph.len(),
{
    if crate::parser::reads_as_string(st.graph, class) {
        if frozen {
            lemma_set_closed(st, id, Node::ObjectFreeze { class, value });
        } else {
            lemma_set_closed(st, id, Node::Object { class, value });
        }
    }
}

proof fn lemma_array_closed(env: ParseEnv, st: ParseState, count: u64, depth: nat)
    requires
        closed(st),
    ensures
        spec_parse_array(env, st, count, depth) matches Ok((done, items)) ==> closed(done)
            && node_closed(Node::Array(items), done.graph.len()) && st.graph.len()
            <= done.graph.len(),
    decreases depth, 1nat, count + 1,
{
    if count <= env.cfg.max_array_size {
        lemma_items_closed(env, st, count as nat, depth);
    }
}

proof fn lemma_items_closed(env: ParseEnv, st: ParseState, n: nat, depth: nat)
    requires
        closed(st),
    ensures
        spec_parse_items(env, st, n, depth) matches Ok((done, items)) ==> closed(done)
            && node_closed(Node::Array(items), done.graph.len()) && st.graph.len()
            <= done.graph.len(),
    decreases depth, 1nat, n,
{
    if n > 0 {
        lemma_items_closed(env, st, (n - 1) as nat, depth);
        if let Ok((before, items)) = spec_parse_items(env, st, (n - 1) as nat, depth) {
            lemma_inner_closed(env, before, false, depth);
            if let Ok((done, item)) = spec_parse_inner(env, before, false, depth) {
                lemma_node_closed_grows(Node::Array(items), before.graph.len(), done.graph.len());
                let all = items.push(item);
                assert forall|i: int| 0 <= i < all.len() implies #[trigger] all[i]
                    < done.graph.len() by {
                    if i < items.len() {
                        assert(node_closed(Node::Array(items), done.graph.len()));
                        assert(items[i] < done.graph.len());
                        assert(all[i] == items[i]);
                    } else {
                        assert(all[i] == item);
                    }
                }
            }
        }
    }
}

proof fn lemma_hash_closed(env: ParseEnv, st: ParseState, count: u64, depth: nat)
    requires
        closed(st),
    ensures
        spec_parse_hash(env, st, count, depth) matches Ok((done, entries)) ==> closed(done)
            && node_closed(Node::Hash(entries), done.graph.len()) && st.graph.len()
            <= done.graph.len(),
    decreases depth, 1nat, count + 1,
{
    if count <= env.cfg.max_hash_size {
        lemma_moved_closed(st, st.pos, 0);
        lemma_entries_closed(env, with_copy_pos(st, 0), count as nat, depth);
        if let Ok((done, entries)) = spec_parse_entries(
            env,
            with_copy_pos(st, 0),
            count as nat,
            depth,
        ) {
            lemma_moved_closed(done, done.pos, st.copy_pos);
        }
    }
}

proof fn lemma_entries_closed(env: ParseEnv, st: ParseState, n: nat, depth: nat)
    requires
        closed(st),
    ensures
        spec_parse_entries(env, st, n, depth) matches Ok((done, entries)) ==> closed(done)
            && node_closed(Node::Hash(entries), done.graph.len()) && st.graph.len()
            <= done.graph.len(),
    decreases depth, 1nat, n,
{
    if n > 0 {
        lemma_entries_closed(env, st, (n - 1) as nat, depth);
        if let Ok((before, entries)) = spec_parse_entries(env, st, (n - 1) as nat, depth) {
            lemma_key_keeps(env, before, true);
            if let Ok((keyed, key)) = spec_parse_str(env, before) {
                lemma_moved_closed(before, keyed.pos, keyed.copy_pos);
                assert(keyed == (ParseState { pos: keyed.pos, copy_pos: keyed.copy_pos, ..before }));
                lemma_inner_closed(env, keyed, false, depth);
                if let Ok((done, value)) = spec_parse_inner(env, keyed, false, depth) {
                    lemma_node_closed_grows(
                        Node::Hash(entries),
                        before.graph.len(),
                        done.graph.len(),
                    );
                    let all = entries.insert(key, value);
                    assert forall|k: Seq<u8>| #[trigger] all.contains_key(k) implies all[k]
                        < done.graph.len() by {
                        if k != key {
                            assert(node_closed(Node::Hash(entries), done.graph.len()));
                            assert(entries.contains_key(k));
                            assert(entries[k] < done.graph.len());
                        } else {
                            assert(all[k] == value);
                        }
                    }
                }
            }
        }
    }
}

/// No reference leaves the graph: where the cells refer to cells that exist,
/// and the tracked positions resolve to cells that exist, a value that is parsed
/// keeps it so, and its own cell exists. Every cell that a `REFP` or an `ALIAS`
/// resolves to is one that was tracked, and so is there.
pub proof fn lemma_parse_closed(env: ParseEnv, st: ParseState, force_track: bool, depth: nat)
    requires
        closed(st),
    ensures
        spec_parse_inner(env, st, force_track, depth) matches Ok((done, out)) ==> closed(done)
            && out < done.graph.len(),
{
    lemma_inner_closed(env, st, force_track, depth);
}

} // verus!
