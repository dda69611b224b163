//! Equal bytes are parsed alike wherever they stand: the proof.
//!
//! A value is parsed from one place of a body, and the same bytes stand at
//! another place of it. Parsed there, in a state that is alike, they give a
//! value that is alike, provided that the first parse tracks nothing: what is
//! tracked is tracked by its place.
use vstd::prelude::*;
use crate::alike::cells_alike;
use crate::alike::renamed;
use crate::alike::renamed_entries;
use crate::alike::renamed_items;
use crate::alike::renamed_node;
use crate::alike::tracks_alike;
use crate::constants::ALIAS;
use crate::constants::ARRAY;
use crate::constants::ARRAYREF_0;
use crate::constants::ARRAYREF_15;
use crate::constants::BINARY;
use crate::constants::COPY;
use crate::constants::DOUBLE;
use crate::constants::FLOAT;
use crate::constants::HASH;
use crate::constants::HASHREF_0;
use crate::constants::HASHREF_15;
use crate::constants::OBJECT;
use crate::constants::OBJECTV;
use crate::constants::OBJECTV_FREEZE;
use crate::constants::OBJECT_FREEZE;
use crate::constants::REFN;
use crate::constants::REFP;
use crate::constants::REGEXP;
use crate::constants::SHORT_BINARY_0;
use crate::constants::SHORT_BINARY_31;
use crate::constants::STR_UTF8;
use crate::constants::TRACK_BIT;
use crate::constants::TYPE_MASK;
use crate::constants::VARINT;
use crate::constants::WEAKEN;
use crate::constants::ZIGZAG;
use crate::laws::lemma_key_keeps;
use crate::laws::lemma_parse_keeps;
use crate::parser::at;
use crate::parser::is_leaf;
use crate::parser::reads_as_string;
use crate::parser::spec_begin_copy;
use crate::parser::spec_fill;
use crate::parser::spec_finish_object;
use crate::parser::spec_leaf;
use crate::parser::spec_lookup;
use crate::parser::spec_parse_array;
use crate::parser::spec_parse_entries;
use crate::parser::spec_parse_hash;
use crate::parser::spec_parse_inner;
use crate::parser::spec_parse_items;
use crate::parser::spec_parse_str;
use crate::parser::spec_read_long_string;
use crate::parser::spec_read_string;
use crate::parser::spec_str;
use crate::parser::with_copy_pos;
use crate::parser::Error;
use crate::parser::Node;
use crate::parser::ParseEnv;
use crate::parser::ParseState;
use crate::reader;
use crate::reader::remaining;
use crate::reader::spec_read_tag;
use crate::reader::spec_read_varint;
use crate::reader::spec_read_varlen;
use crate::reader::spec_read_word;
use crate::varint;

verus! {

/// Two places of a body at which the same `n` bytes stand.
pub struct Places {
    pub first: nat,
    pub second: nat,
    pub n: nat,
}

/// Whether the same `w.n` bytes stand at both places of `buf`.
pub open spec fn same_bytes(buf: Seq<u8>, w: Places) -> bool {
    &&& w.first + w.n <= buf.len()
    &&& w.second + w.n <= buf.len()
    &&& buf.len() <= usize::MAX
    &&& forall|i: int| 0 <= i < w.n ==> buf[w.first + i] == #[trigger] buf[w.second + i]
}

/// Whether the position `pb` is the position `pa`, or is at the second place
/// where `pa` is at the first.
pub open spec fn placed_pos(pa: nat, pb: nat, w: Places) -> bool {
    pa == pb || (w.first <= pa <= w.first + w.n && pb + w.first == pa + w.second)
}

/// Whether `xb` follows on `pb` as `xa` follows on `pa`: at the same place, or moved alike.
pub open spec fn follows(pa: nat, pb: nat, xa: nat, xb: nat, w: Places) -> bool {
    if pa == pb {
        xb == xa
    } else {
        xb + w.first == xa + w.second
    }
}

/// Whether the copy cursors `ca` and `cb` go together: they are the same, or
/// at the two places, or the ones that the parses started with.
pub open spec fn placed_cursor(ca: nat, cb: nat, w: Places, from: nat, to: nat) -> bool {
    ||| ca == cb
    ||| w.first < ca <= w.first + w.n && cb + w.first == ca + w.second
    ||| ca == from && cb == to
}

/// A tag that is read inside the first place is read alike at the second.
proof fn lemma_tag_placed(buf: Seq<u8>, w: Places, pa: nat, pb: nat)
    requires
        same_bytes(buf, w),
        placed_pos(pa, pb, w),
        spec_read_tag(buf, pa) matches Ok((byte, end)) && (pa != pb ==> end <= w.first + w.n),
    ensures
        spec_read_tag(buf, pb) matches Ok((byte, end_b)) && byte == spec_read_tag(buf, pa)->Ok_0.0
            && follows(pa, pb, spec_read_tag(buf, pa)->Ok_0.1, end_b, w),
    decreases buf.len() - pa,
{
    if pa != pb {
        reader::lemma_read_tag_found(buf, pa);
        assert(buf[w.first + (pa - w.first)] == buf[w.second + (pa - w.first)]);
        if reader::is_pad(buf[pa as int]) {
            lemma_tag_placed(buf, w, pa + 1, pb + 1);
        }
    }
}

/// What lies from `pa` on is, for `len` bytes, what lies from `pb` on.
proof fn lemma_rest_placed(buf: Seq<u8>, w: Places, pa: nat, pb: nat, len: nat)
    requires
        same_bytes(buf, w),
        placed_pos(pa, pb, w),
        pa != pb ==> pa + len <= w.first + w.n,
        pa + len <= buf.len(),
    ensures
        pb + len <= buf.len(),
        forall|i: int| 0 <= i < len ==> remaining(buf, pa)[i] == remaining(buf, pb)[i],
        buf.subrange(pa as int, (pa + len) as int) == buf.subrange(pb as int, (pb + len) as int),
{
    if pa != pb {
        assert forall|i: int| 0 <= i < len implies remaining(buf, pa)[i] == remaining(buf, pb)[i] by {
            assert(buf[w.first + (pa - w.first + i)] == buf[w.second + (pa - w.first + i)]);
        }
        let sa = buf.subrange(pa as int, (pa + len) as int);
        let sb = buf.subrange(pb as int, (pb + len) as int);
        assert forall|i: int| 0 <= i < len implies sa[i] == sb[i] by {
            assert(buf[w.first + (pa - w.first + i)] == buf[w.second + (pa - w.first + i)]);
            assert(sa[i] == buf[pa + i]);
            assert(sb[i] == buf[pb + i]);
        }
        assert(sa =~= sb);
    }
}

/// A varint that is read inside the first place is read alike at the second.
proof fn lemma_varint_placed(buf: Seq<u8>, w: Places, pa: nat, pb: nat)
    requires
        same_bytes(buf, w),
        placed_pos(pa, pb, w),
        spec_read_varint(buf, pa) matches Ok((v, end)) && (pa != pb ==> end <= w.first + w.n),
    ensures
        spec_read_varint(buf, pb) matches Ok((v, end_b)) && v == spec_read_varint(buf, pa)->Ok_0.0
            && follows(pa, pb, spec_read_varint(buf, pa)->Ok_0.1, end_b, w),
        spec_read_varint(buf, pa)->Ok_0.1 > pa,
        spec_read_varint(buf, pa)->Ok_0.1 <= buf.len(),
{
    let a = remaining(buf, pa);
    varint::lemma_varint_end(a);
    varint::lemma_varint_end_from(a, 0);
    if pa != pb {
        let b = remaining(buf, pb);
        let len = (spec_read_varint(buf, pa)->Ok_0.1 - pa) as nat;
        lemma_rest_placed(buf, w, pa, pb, len);
        crate::padding::lemma_varint_tail_prefix(a, b, 0, len);
    }
}

/// A word that is read inside the first place is read alike at the second.
proof fn lemma_word_placed(buf: Seq<u8>, w: Places, pa: nat, pb: nat, width: nat)
    requires
        same_bytes(buf, w),
        placed_pos(pa, pb, w),
        width == 4 || width == 8,
        spec_read_word(buf, pa, width) matches Ok((v, end)) && (pa != pb ==> end <= w.first + w.n),
    ensures
        spec_read_word(buf, pb, width) matches Ok((v, end_b)) && v == spec_read_word(
            buf,
            pa,
            width,
        )->Ok_0.0 && follows(pa, pb, spec_read_word(buf, pa, width)->Ok_0.1, end_b, w),
{
    if pa != pb {
        lemma_rest_placed(buf, w, pa, pb, width);
        let a = remaining(buf, pa);
        let b = remaining(buf, pb);
        assert(a[0] == b[0] && a[1] == b[1] && a[2] == b[2] && a[3] == b[3]);
        if width == 8 {
            assert(a[4] == b[4] && a[5] == b[5] && a[6] == b[6] && a[7] == b[7]);
            assert(a.subrange(4, 8) =~= b.subrange(4, 8));
        }
    }
}

/// A string that is read inside the first place is read alike at the second.
proof fn lemma_string_placed(env: ParseEnv, w: Places, pa: nat, pb: nat, len: usize)
    requires
        same_bytes(env.buf, w),
        placed_pos(pa, pb, w),
        spec_read_string(env, pa, len) matches Ok((bytes, end)) && (pa != pb ==> end <= w.first
            + w.n),
    ensures
        spec_read_string(env, pb, len) matches Ok((bytes, end_b)) && bytes == spec_read_string(
            env,
            pa,
            len,
        )->Ok_0.0 && follows(pa, pb, spec_read_string(env, pa, len)->Ok_0.1, end_b, w),
        spec_read_string(env, pa, len)->Ok_0.1 >= pa,
{
    if pa != pb {
        lemma_rest_placed(env.buf, w, pa, pb, len as nat);
    }
}

/// A string with its length that is read inside the first place is read alike
/// at the second.
proof fn lemma_long_string_placed(env: ParseEnv, w: Places, pa: nat, pb: nat)
    requires
        same_bytes(env.buf, w),
        placed_pos(pa, pb, w),
        spec_read_long_string(env, pa) matches Ok((bytes, end)) && (pa != pb ==> end <= w.first
            + w.n),
    ensures
        spec_read_long_string(env, pb) matches Ok((bytes, end_b)) && bytes
            == spec_read_long_string(env, pa)->Ok_0.0 && follows(
            pa,
            pb,
            spec_read_long_string(env, pa)->Ok_0.1,
            end_b,
            w,
        ),
        spec_read_long_string(env, pa)->Ok_0.1 > pa,
{
    if let Ok((len, start)) = spec_read_varlen(env.buf, pa) {
        let end = spec_read_long_string(env, pa)->Ok_0.1;
        assert(start <= end);
        lemma_varint_placed(env.buf, w, pa, pb);
        let start_b = spec_read_varlen(env.buf, pb)->Ok_0.1;
        assert(placed_pos(start, start_b, w));
        lemma_string_placed(env, w, start, start_b, len);
    }
}

proof fn lemma_leaf_advances(env: ParseEnv, st: ParseState, tag: u8, id: nat)
    requires
        is_leaf(tag),
    ensures
        spec_leaf(env, st, tag, id) matches Ok(done) ==> done.pos >= st.pos,
{
    varint::lemma_varint_end(remaining(env.buf, st.pos));
    if let Ok((len, start)) = spec_read_varlen(env.buf, st.pos) {
        assert(start > st.pos);
    }
}

proof fn lemma_key_advances(env: ParseEnv, st: ParseState, outer: bool)
    ensures
        spec_str(env, st, outer) matches Ok((done, key)) ==> done.pos > st.pos,
    decreases outer as int,
{
    reader::lemma_read_tag_found(env.buf, st.pos);
    if let Ok((byte, pos)) = spec_read_tag(env.buf, st.pos) {
        let tag = byte & TYPE_MASK;
        varint::lemma_varint_end(remaining(env.buf, pos));
        if tag == COPY && outer {
            if let Ok(inside) = spec_begin_copy(env, at(st, pos)) {
                lemma_key_keeps(env, inside, false);
            }
        }
    }
}

/// A value that is parsed ends behind where it starts.
pub proof fn lemma_parse_advances(env: ParseEnv, st: ParseState, force_track: bool, depth: nat)
    ensures
        spec_parse_inner(env, st, force_track, depth) matches Ok((done, out)) ==> done.pos > st.pos,
    decreases depth, 0nat, 0nat,
{
    reader::lemma_read_tag_found(env.buf, st.pos);
    if depth > 0 {
        if let Ok((byte, pos)) = spec_read_tag(env.buf, st.pos) {
            let tag = byte & TYPE_MASK;
            let kept = force_track || byte & TRACK_BIT != 0;
            let id = st.graph.len();
            let made = ParseState {
                pos,
                copy_pos: st.copy_pos,
                track: if kept {
                    st.track.insert(pos as usize, id)
                } else {
                    st.track
                },
                graph: st.graph.push(Node::Undef),
            };
            lemma_fill_advances(env, made, tag, id, (depth - 1) as nat);
        }
    }
}

proof fn lemma_fill_advances(env: ParseEnv, st: ParseState, tag: u8, id: nat, depth: nat)
    ensures
        spec_fill(env, st, tag, id, depth) matches Ok((done, out)) ==> done.pos >= st.pos,
    decreases depth, 2nat, 0nat,
{
    varint::lemma_varint_end(remaining(env.buf, st.pos));
    if is_leaf(tag) {
        lemma_leaf_advances(env, st, tag, id);
    } else if tag == REFN || tag == WEAKEN {
        lemma_parse_advances(env, st, false, depth);
    } else if tag == COPY {
        if let Ok(inside) = spec_begin_copy(env, st) {
            lemma_parse_keeps(env, inside, false, depth);
        }
    } else if tag == ARRAY {
        if let Ok((count, start)) = spec_read_varint(env.buf, st.pos) {
            lemma_items_advance(env, at(st, start), count as nat, depth);
        }
    } else if ARRAYREF_0 <= tag <= ARRAYREF_15 {
        lemma_items_advance(env, st, (tag - ARRAYREF_0) as nat, depth);
    } else if tag == HASH {
        if let Ok((count, start)) = spec_read_varint(env.buf, st.pos) {
            lemma_entries_advance(env, with_copy_pos(at(st, start), 0), count as nat, depth);
        }
    } else if HASHREF_0 <= tag <= HASHREF_15 {
        lemma_entries_advance(env, with_copy_pos(st, 0), (tag - HASHREF_0) as nat, depth);
    } else if tag == OBJECT || tag == OBJECT_FREEZE {
        lemma_parse_advances(env, with_copy_pos(st, 0), true, depth);
        if let Ok((named, class)) = spec_parse_inner(env, with_copy_pos(st, 0), true, depth) {
            lemma_parse_advances(env, with_copy_pos(named, st.copy_pos), false, depth);
        }
    } else if tag == OBJECTV || tag == OBJECTV_FREEZE {
        if let Ok((named, class)) = spec_lookup(env, st) {
            lemma_parse_advances(env, named, false, depth);
        }
    } else if tag == REGEXP {
        lemma_parse_advances(env, st, false, depth);
        if let Ok((first, pattern)) = spec_parse_inner(env, st, false, depth) {
            lemma_parse_advances(env, first, false, depth);
        }
    }
}

proof fn lemma_items_advance(env: ParseEnv, st: ParseState, n: nat, depth: nat)
    ensures
        spec_parse_items(env, st, n, depth) matches Ok((done, items)) ==> done.pos >= st.pos,
    decreases depth, 1nat, n,
{
    if n > 0 {
        lemma_items_advance(env, st, (n - 1) as nat, depth);
        if let Ok((before, items)) = spec_parse_items(env, st, (n - 1) as nat, depth) {
            lemma_parse_advances(env, before, false, depth);
        }
    }
}

proof fn lemma_entries_advance(env: ParseEnv, st: ParseState, n: nat, depth: nat)
    ensures
        spec_parse_entries(env, st, n, depth) matches Ok((done, entries)) ==> done.pos >= st.pos,
    decreases depth, 1nat, n,
{
    if n > 0 {
        lemma_entries_advance(env, st, (n - 1) as nat, depth);
        if let Ok((before, entries)) = spec_parse_entries(env, st, (n - 1) as nat, depth) {
            lemma_key_advances(env, before, true);
            if let Ok((keyed, key)) = spec_parse_str(env, before) {
                lemma_parse_advances(env, keyed, false, depth);
            }
        }
    }
}

/// Whether the parse of the value at `st.pos` tracks nothing: no tag in it has
/// its track bit, and it holds no class name, which would be tracked.
pub open spec fn inner_untracked(env: ParseEnv, st: ParseState, force_track: bool, depth: nat) -> bool
    decreases depth, 0nat, 0nat,
{
    if depth == 0 {
        true
    } else {
        match spec_read_tag(env.buf, st.pos) {
            Err(_) => true,
            Ok((byte, pos)) => {
                let made = ParseState { pos, graph: st.graph.push(Node::Undef), ..st };
                !force_track && byte & TRACK_BIT == 0 && fill_untracked(
                    env,
                    made,
                    byte & TYPE_MASK,
                    st.graph.len(),
                    (depth - 1) as nat,
                )
            },
        }
    }
}

/// Whether what fills the cell of a tag of type `tag` tracks nothing.
pub open spec fn fill_untracked(env: ParseEnv, st: ParseState, tag: u8, id: nat, depth: nat) -> bool
    decreases depth, 2nat, 0nat,
{
    if tag == REFN || tag == WEAKEN {
        inner_untracked(env, st, false, depth)
    } else if tag == COPY {
        match spec_begin_copy(env, st) {
            Ok(inside) => inner_untracked(env, inside, false, depth),
            Err(_) => true,
        }
    } else if tag == ARRAY {
        match spec_read_varint(env.buf, st.pos) {
            Ok((count, start)) => count > env.cfg.max_array_size || items_untracked(
                env,
                at(st, start),
                count as nat,
                depth,
            ),
            Err(_) => true,
        }
    } else if ARRAYREF_0 <= tag <= ARRAYREF_15 {
        tag - ARRAYREF_0 > env.cfg.max_array_size || items_untracked(
            env,
            st,
            (tag - ARRAYREF_0) as nat,
            depth,
        )
    } else if tag == HASH {
        match spec_read_varint(env.buf, st.pos) {
            Ok((count, start)) => count > env.cfg.max_hash_size || entries_untracked(
                env,
                with_copy_pos(at(st, start), 0),
                count as nat,
                depth,
            ),
            Err(_) => true,
        }
    } else if HASHREF_0 <= tag <= HASHREF_15 {
        tag - HASHREF_0 > env.cfg.max_hash_size || entries_untracked(
            env,
            with_copy_pos(st, 0),
            (tag - HASHREF_0) as nat,
            depth,
        )
    } else if tag == OBJECT || tag == OBJECT_FREEZE {
        inner_untracked(env, with_copy_pos(st, 0), true, depth)
    } else if tag == OBJECTV || tag == OBJECTV_FREEZE {
        match spec_lookup(env, st) {
            Ok((named, class)) => inner_untracked(env, named, false, depth),
            Err(_) => true,
        }
    } else if tag == REGEXP {
        inner_untracked(env, st, false, depth) && match spec_parse_inner(env, st, false, depth) {
            Ok((first, pattern)) => inner_untracked(env, first, false, depth),
            Err(_) => true,
        }
    } else {
        true
    }
}

/// Whether the parse of the first `n` values at `st.pos` tracks nothing.
pub open spec fn items_untracked(env: ParseEnv, st: ParseState, n: nat, depth: nat) -> bool
    decreases depth, 1nat, n,
{
    n == 0 || (items_untracked(env, st, (n - 1) as nat, depth) && match spec_parse_items(
        env,
        st,
        (n - 1) as nat,
        depth,
    ) {
        Ok((before, items)) => inner_untracked(env, before, false, depth),
        Err(_) => true,
    })
}

/// Whether the parse of the first `n` pairs at `st.pos` tracks nothing.
pub open spec fn entries_untracked(env: ParseEnv, st: ParseState, n: nat, depth: nat) -> bool
    decreases depth, 1nat, n,
{
    n == 0 || (entries_untracked(env, st, (n - 1) as nat, depth) && match spec_parse_entries(
        env,
        st,
        (n - 1) as nat,
        depth,
    ) {
        Ok((before, entries)) => match spec_parse_str(env, before) {
            Ok((keyed, key)) => inner_untracked(env, keyed, false, depth),
            Err(_) => true,
        },
        Err(_) => true,
    })
}

/// Whether the state `b` is to the state `a` as the second place is to the
/// first: it stands where `a` stands, or at the second place where `a` stands
/// at the first; it has the cells of `a`, renamed, and tracks what `a` tracks.
pub open spec fn placed(
    a: ParseState,
    b: ParseState,
    w: Places,
    nc: nat,
    d: nat,
    from: nat,
    to: nat,
) -> bool {
    &&& placed_pos(a.pos, b.pos, w)
    &&& placed_cursor(a.copy_pos, b.copy_pos, w, from, to)
    &&& cells_alike(a.graph, b.graph, nc, d)
    &&& tracks_alike(a.track, b.track, nc, d)
}

proof fn lemma_cells_push(a: Seq<Node>, b: Seq<Node>, nc: nat, d: nat, node: Node)
    requires
        cells_alike(a, b, nc, d),
    ensures
        cells_alike(a.push(node), b.push(renamed_node(node, nc, d)), nc, d),
{
    let a2 = a.push(node);
    let b2 = b.push(renamed_node(node, nc, d));
    assert forall|i: int| 0 <= i < nc implies #[trigger] b2[i] == a2[i] by {
        assert(b[i] == a[i]);
    }
    assert forall|i: int| nc <= i < a2.len() implies b2[i + d] == renamed_node(
        #[trigger] a2[i],
        nc,
        d,
    ) by {
        if i < a.len() {
            assert(b[i + d] == renamed_node(a[i], nc, d));
        }
    }
}

proof fn lemma_cells_set(a: Seq<Node>, b: Seq<Node>, nc: nat, d: nat, id: nat, node: Node)
    requires
        cells_alike(a, b, nc, d),
        nc <= id < a.len(),
    ensures
        cells_alike(
            a.update(id as int, node),
            b.update((id + d) as int, renamed_node(node, nc, d)),
            nc,
            d,
        ),
{
    let a2 = a.update(id as int, node);
    let b2 = b.update((id + d) as int, renamed_node(node, nc, d));
    assert forall|i: int| 0 <= i < nc implies #[trigger] b2[i] == a2[i] by {
        assert(b[i] == a[i]);
    }
    assert forall|i: int| nc <= i < a2.len() implies b2[i + d] == renamed_node(
        #[trigger] a2[i],
        nc,
        d,
    ) by {
        if i != id {
            assert(b[i + d] == renamed_node(a[i], nc, d));
        }
    }
}

proof fn lemma_strings_placed(a: Seq<Node>, b: Seq<Node>, nc: nat, d: nat, id: nat)
    requires
        cells_alike(a, b, nc, d),
    ensures
        reads_as_string(b, renamed(id, nc, d)) == reads_as_string(a, id),
{
    if id < nc {
        assert(b[id as int] == a[id as int]);
    } else if id < a.len() {
        assert(b[(id + d) as int] == renamed_node(a[id as int], nc, d));
    }
}

/// The step of a parse from `a` and the step from `b` come out placed alike.
pub open spec fn steps_placed<T>(
    ra: Result<(ParseState, T), Error>,
    rb: Result<(ParseState, T), Error>,
    a: ParseState,
    b: ParseState,
    w: Places,
    nc: nat,
    d: nat,
    from: nat,
    to: nat,
) -> bool {
    ra matches Ok((a2, x)) ==> rb matches Ok((b2, y)) && placed(a2, b2, w, nc, d, from, to)
        && follows(a.pos, b.pos, a2.pos, b2.pos, w) && a2.copy_pos == a.copy_pos && b2.copy_pos
        == b.copy_pos
}

/// Whether a step from `a` that ends at `end` stays inside the first place,
/// if `b` stands at the second.
pub open spec fn stays(a: ParseState, b: ParseState, end: nat, w: Places) -> bool {
    a.pos != b.pos ==> end <= w.first + w.n
}

proof fn lemma_leaf_placed(
    env: ParseEnv,
    a: ParseState,
    b: ParseState,
    tag: u8,
    id: nat,
    w: Places,
    nc: nat,
    d: nat,
    from: nat,
    to: nat,
)
    requires
        same_bytes(env.buf, w),
        placed(a, b, w, nc, d, from, to),
        nc <= id < a.graph.len(),
        is_leaf(tag),
        spec_leaf(env, a, tag, id) matches Ok(a2) && stays(a, b, a2.pos, w),
    ensures
        spec_leaf(env, b, tag, id + d) matches Ok(b2) && placed(
            spec_leaf(env, a, tag, id)->Ok_0,
            b2,
            w,
            nc,
            d,
            from,
            to,
        ) && follows(a.pos, b.pos, spec_leaf(env, a, tag, id)->Ok_0.pos, b2.pos, w) && b2.copy_pos
            == b.copy_pos && spec_leaf(env, a, tag, id)->Ok_0.copy_pos == a.copy_pos,
{
    let a2 = spec_leaf(env, a, tag, id)->Ok_0;
    let node = a2.graph[id as int];
    lemma_leaf_advances(env, a, tag, id);
    if tag == VARINT || tag == ZIGZAG {
        lemma_varint_placed(env.buf, w, a.pos, b.pos);
    } else if tag == FLOAT {
        lemma_word_placed(env.buf, w, a.pos, b.pos, 4);
    } else if tag == DOUBLE {
        lemma_word_placed(env.buf, w, a.pos, b.pos, 8);
    } else if tag == BINARY || tag == STR_UTF8 {
        lemma_long_string_placed(env, w, a.pos, b.pos);
    } else if SHORT_BINARY_0 <= tag <= SHORT_BINARY_31 {
        lemma_string_placed(env, w, a.pos, b.pos, (tag - SHORT_BINARY_0) as usize);
    }
    let b2 = spec_leaf(env, b, tag, id + d)->Ok_0;
    assert(renamed_node(node, nc, d) == node);
    assert(a2.graph =~= a.graph.update(id as int, node));
    assert(b2.graph =~= b.graph.update((id + d) as int, node));
    lemma_cells_set(a.graph, b.graph, nc, d, id, node);
}

proof fn lemma_lookup_placed(
    env: ParseEnv,
    a: ParseState,
    b: ParseState,
    w: Places,
    nc: nat,
    d: nat,
    from: nat,
    to: nat,
)
    requires
        same_bytes(env.buf, w),
        placed(a, b, w, nc, d, from, to),
        spec_lookup(env, a) matches Ok((a2, target)) && stays(a, b, a2.pos, w),
    ensures
        spec_lookup(env, b) matches Ok((b2, target_b)) && placed(
            spec_lookup(env, a)->Ok_0.0,
            b2,
            w,
            nc,
            d,
            from,
            to,
        ) && target_b == renamed(spec_lookup(env, a)->Ok_0.1, nc, d) && follows(
            a.pos,
            b.pos,
            spec_lookup(env, a)->Ok_0.0.pos,
            b2.pos,
            w,
        ) && b2.copy_pos == b.copy_pos && spec_lookup(env, a)->Ok_0.0.copy_pos == a.copy_pos
            && spec_lookup(env, a)->Ok_0.0.pos > a.pos,
{
    lemma_varint_placed(env.buf, w, a.pos, b.pos);
    if let Ok((p, end)) = spec_read_varlen(env.buf, a.pos) {
        assert(a.track.contains_key(p));
    }
}

/// The states in which the targets of two copies are parsed are placed alike:
/// they stand at the same target, with cursors that go together.
proof fn lemma_begin_copy_placed(
    env: ParseEnv,
    a: ParseState,
    b: ParseState,
    w: Places,
    nc: nat,
    d: nat,
    from: nat,
    to: nat,
)
    requires
        same_bytes(env.buf, w),
        placed(a, b, w, nc, d, from, to),
        from == 0 ==> to == 0,
        spec_begin_copy(env, a) matches Ok(inside) && stays(a, b, inside.copy_pos, w),
    ensures
        spec_begin_copy(env, b) matches Ok(inside_b) && placed(
            spec_begin_copy(env, a)->Ok_0,
            inside_b,
            w,
            nc,
            d,
            from,
            to,
        ) && inside_b.pos == spec_begin_copy(env, a)->Ok_0.pos && follows(
            a.pos,
            b.pos,
            spec_begin_copy(env, a)->Ok_0.copy_pos,
            inside_b.copy_pos,
            w,
        ) && spec_begin_copy(env, a)->Ok_0.copy_pos > a.pos,
{
    lemma_varint_placed(env.buf, w, a.pos, b.pos);
}

proof fn lemma_key_placed(
    env: ParseEnv,
    a: ParseState,
    b: ParseState,
    outer: bool,
    w: Places,
    nc: nat,
    d: nat,
    from: nat,
    to: nat,
)
    requires
        same_bytes(env.buf, w),
        placed(a, b, w, nc, d, from, to),
        from == 0 ==> to == 0,
        a.copy_pos == 0 && b.copy_pos == 0 || !outer,
        spec_str(env, a, outer) matches Ok((a2, key)) && stays(a, b, a2.pos, w),
    ensures
        spec_str(env, b, outer) matches Ok((b2, key_b)) && key_b == spec_str(
            env,
            a,
            outer,
        )->Ok_0.1 && follows(a.pos, b.pos, spec_str(env, a, outer)->Ok_0.0.pos, b2.pos, w)
            && b2.graph == b.graph && b2.track == b.track && b2.copy_pos == b.copy_pos && spec_str(
            env,
            a,
            outer,
        )->Ok_0.0.copy_pos == a.copy_pos,
    decreases outer as int,
{
    let a2 = spec_str(env, a, outer)->Ok_0.0;
    lemma_key_keeps(env, a, outer);
    reader::lemma_read_tag_found(env.buf, a.pos);
    if let Ok((byte, pos)) = spec_read_tag(env.buf, a.pos) {
        let tag = byte & TYPE_MASK;
        if SHORT_BINARY_0 <= tag <= SHORT_BINARY_31 {
            lemma_string_placed_after_tag(env, w, a.pos, b.pos, pos, a2.pos);
            let pos_b = spec_read_tag(env.buf, b.pos)->Ok_0.1;
            lemma_string_placed(env, w, pos, pos_b, (tag - SHORT_BINARY_0) as usize);
        } else if tag == STR_UTF8 || tag == BINARY {
            lemma_string_placed_after_tag(env, w, a.pos, b.pos, pos, a2.pos);
            let pos_b = spec_read_tag(env.buf, b.pos)->Ok_0.1;
            lemma_long_string_placed(env, w, pos, pos_b);
        } else if tag == COPY {
            assert(outer);
            if let Ok(inside) = spec_begin_copy(env, at(a, pos)) {
                lemma_key_keeps(env, inside, false);
                assert(a2.pos == inside.copy_pos);
                lemma_string_placed_after_tag(env, w, a.pos, b.pos, pos, a2.pos);
                let pos_b = spec_read_tag(env.buf, b.pos)->Ok_0.1;
                lemma_begin_copy_placed(env, at(a, pos), at(b, pos_b), w, nc, d, from, to);
                let inside_b = spec_begin_copy(env, at(b, pos_b))->Ok_0;
                lemma_key_placed(env, inside, inside_b, false, w, nc, d, from, to);
                lemma_key_keeps(env, inside_b, false);
            }
        }
    }
}

/// After a tag that is read inside the first place, what follows it up to
/// `end` lies inside the first place too, and the tag is read alike at the second.
proof fn lemma_string_placed_after_tag(
    env: ParseEnv,
    w: Places,
    pa: nat,
    pb: nat,
    pos: nat,
    end: nat,
)
    requires
        same_bytes(env.buf, w),
        placed_pos(pa, pb, w),
        spec_read_tag(env.buf, pa) matches Ok((byte, found)) && found == pos,
        pos <= end,
        pa != pb ==> end <= w.first + w.n,
    ensures
        spec_read_tag(env.buf, pb) matches Ok((byte, pos_b)) && byte == spec_read_tag(
            env.buf,
            pa,
        )->Ok_0.0 && follows(pa, pb, pos, pos_b, w) && placed_pos(pos, pos_b, w) && (pos != pos_b
            ==> end <= w.first + w.n) && (pa == pb) == (pos == pos_b),
{
    reader::lemma_read_tag_found(env.buf, pa);
    lemma_tag_placed(env.buf, w, pa, pb);
}

proof fn lemma_inner_placed(
    env: ParseEnv,
    a: ParseState,
    b: ParseState,
    force_track: bool,
    depth: nat,
    w: Places,
    nc: nat,
    d: nat,
    from: nat,
    to: nat,
)
    requires
        same_bytes(env.buf, w),
        placed(a, b, w, nc, d, from, to),
        from == 0 ==> to == 0,
        inner_untracked(env, a, force_track, depth),
        spec_parse_inner(env, a, force_track, depth) matches Ok((a2, out)) && stays(a, b, a2.pos, w),
    ensures
        steps_placed(
            spec_parse_inner(env, a, force_track, depth),
            spec_parse_inner(env, b, force_track, depth),
            a,
            b,
            w,
            nc,
            d,
            from,
            to,
        ),
        spec_parse_inner(env, b, force_track, depth) matches Ok((b2, out_b)) && out_b == renamed(
            spec_parse_inner(env, a, force_track, depth)->Ok_0.1,
            nc,
            d,
        ),
    decreases depth, 0nat, 0nat,
{
    let (a2, out) = spec_parse_inner(env, a, force_track, depth)->Ok_0;
    reader::lemma_read_tag_found(env.buf, a.pos);
    if let Ok((byte, pos)) = spec_read_tag(env.buf, a.pos) {
        let tag = byte & TYPE_MASK;
        let id = a.graph.len();
        let made_a = ParseState { pos, graph: a.graph.push(Node::Undef), ..a };
        lemma_fill_advances(env, made_a, tag, id, (depth - 1) as nat);
        lemma_string_placed_after_tag(env, w, a.pos, b.pos, pos, a2.pos);
        let pos_b = spec_read_tag(env.buf, b.pos)->Ok_0.1;
        let made_b = ParseState { pos: pos_b, graph: b.graph.push(Node::Undef), ..b };
        lemma_cells_push(a.graph, b.graph, nc, d, Node::Undef);
        assert(placed(made_a, made_b, w, nc, d, from, to));
        lemma_fill_placed(env, made_a, made_b, tag, id, (depth - 1) as nat, w, nc, d, from, to);
    }
}

/// What filling a cell at the second place owes to filling it at the first.
pub open spec fn fill_placed(
    env: ParseEnv,
    a: ParseState,
    b: ParseState,
    tag: u8,
    id: nat,
    depth: nat,
    w: Places,
    nc: nat,
    d: nat,
    from: nat,
    to: nat,
) -> bool {
    &&& steps_placed(
        spec_fill(env, a, tag, id, depth),
        spec_fill(env, b, tag, id + d, depth),
        a,
        b,
        w,
        nc,
        d,
        from,
        to,
    )
    &&& spec_fill(env, b, tag, id + d, depth) matches Ok((b2, out_b)) && out_b == renamed(
        spec_fill(env, a, tag, id, depth)->Ok_0.1,
        nc,
        d,
    )
}

proof fn lemma_fill_placed(
    env: ParseEnv,
    a: ParseState,
    b: ParseState,
    tag: u8,
    id: nat,
    depth: nat,
    w: Places,
    nc: nat,
    d: nat,
    from: nat,
    to: nat,
)
    requires
        same_bytes(env.buf, w),
        placed(a, b, w, nc, d, from, to),
        from == 0 ==> to == 0,
        nc <= id < a.graph.len(),
        fill_untracked(env, a, tag, id, depth),
        spec_fill(env, a, tag, id, depth) matches Ok((a2, out)) && stays(a, b, a2.pos, w),
    ensures
        fill_placed(env, a, b, tag, id, depth, w, nc, d, from, to),
    decreases depth, 4nat, 0nat,
{
    if is_leaf(tag) {
        lemma_leaf_placed(env, a, b, tag, id, w, nc, d, from, to);
    } else if tag == REFN || tag == WEAKEN {
        lemma_nested_placed(env, a, b, tag, id, depth, w, nc, d, from, to);
    } else if tag == REFP || tag == ALIAS {
        lemma_backref_placed(env, a, b, tag, id, depth, w, nc, d, from, to);
    } else if tag == COPY {
        lemma_copy_placed(env, a, b, tag, id, depth, w, nc, d, from, to);
    } else if tag == ARRAY {
        lemma_array_tag_placed(env, a, b, tag, id, depth, w, nc, d, from, to);
    } else if ARRAYREF_0 <= tag <= ARRAYREF_15 {
        lemma_arrayref_placed(env, a, b, tag, id, depth, w, nc, d, from, to);
    } else if tag == HASH {
        lemma_hash_tag_placed(env, a, b, tag, id, depth, w, nc, d, from, to);
    } else if HASHREF_0 <= tag <= HASHREF_15 {
        lemma_hashref_placed(env, a, b, tag, id, depth, w, nc, d, from, to);
    } else if tag == OBJECT || tag == OBJECT_FREEZE {
        // a class name is tracked: the parse is none that tracks nothing
        reader::lemma_read_tag_found(env.buf, a.pos);
        assert(false);
    } else if tag == OBJECTV || tag == OBJECTV_FREEZE {
        lemma_objectv_placed(env, a, b, tag, id, depth, w, nc, d, from, to);
    } else if tag == REGEXP {
        lemma_regexp_placed(env, a, b, tag, id, depth, w, nc, d, from, to);
    }
}

proof fn lemma_nested_placed(
    env: ParseEnv,
    a: ParseState,
    b: ParseState,
    tag: u8,
    id: nat,
    depth: nat,
    w: Places,
    nc: nat,
    d: nat,
    from: nat,
    to: nat,
)
    requires
        same_bytes(env.buf, w),
        placed(a, b, w, nc, d, from, to),
        from == 0 ==> to == 0,
        nc <= id < a.graph.len(),
        tag == REFN || tag == WEAKEN,
        fill_untracked(env, a, tag, id, depth),
        spec_fill(env, a, tag, id, depth) matches Ok((a2, out)) && stays(a, b, a2.pos, w),
    ensures
        fill_placed(env, a, b, tag, id, depth, w, nc, d, from, to),
    decreases depth, 3nat, 0nat,
{
    lemma_inner_placed(env, a, b, false, depth, w, nc, d, from, to);
    lemma_parse_keeps(env, a, false, depth);
    if let Ok((ac, child)) = spec_parse_inner(env, a, false, depth) {
        let bc = spec_parse_inner(env, b, false, depth)->Ok_0.0;
        let node = if tag == REFN {
            Node::Ref(child)
        } else {
            Node::WeakRef(child)
        };
        lemma_cells_set(ac.graph, bc.graph, nc, d, id, node);
    }
}

proof fn lemma_backref_placed(
    env: ParseEnv,
    a: ParseState,
    b: ParseState,
    tag: u8,
    id: nat,
    depth: nat,
    w: Places,
    nc: nat,
    d: nat,
    from: nat,
    to: nat,
)
    requires
        same_bytes(env.buf, w),
        placed(a, b, w, nc, d, from, to),
        from == 0 ==> to == 0,
        nc <= id < a.graph.len(),
        tag == REFP || tag == ALIAS,
        fill_untracked(env, a, tag, id, depth),
        spec_fill(env, a, tag, id, depth) matches Ok((a2, out)) && stays(a, b, a2.pos, w),
    ensures
        fill_placed(env, a, b, tag, id, depth, w, nc, d, from, to),
    decreases depth, 3nat, 0nat,
{
    lemma_lookup_placed(env, a, b, w, nc, d, from, to);
    if tag == REFP {
        if let Ok((ac, target)) = spec_lookup(env, a) {
            let bc = spec_lookup(env, b)->Ok_0.0;
            lemma_cells_set(ac.graph, bc.graph, nc, d, id, Node::Ref(target));
        }
    }
}

proof fn lemma_copy_placed(
    env: ParseEnv,
    a: ParseState,
    b: ParseState,
    tag: u8,
    id: nat,
    depth: nat,
    w: Places,
    nc: nat,
    d: nat,
    from: nat,
    to: nat,
)
    requires
        same_bytes(env.buf, w),
        placed(a, b, w, nc, d, from, to),
        from == 0 ==> to == 0,
        nc <= id < a.graph.len(),
        tag == COPY,
        fill_untracked(env, a, tag, id, depth),
        spec_fill(env, a, tag, id, depth) matches Ok((a2, out)) && stays(a, b, a2.pos, w),
    ensures
        fill_placed(env, a, b, tag, id, depth, w, nc, d, from, to),
    decreases depth, 3nat, 0nat,
{
    if let Ok(inside) = spec_begin_copy(env, a) {
        lemma_parse_keeps(env, inside, false, depth);
        lemma_begin_copy_placed(env, a, b, w, nc, d, from, to);
        let inside_b = spec_begin_copy(env, b)->Ok_0;
        lemma_inner_placed(env, inside, inside_b, false, depth, w, nc, d, from, to);
        lemma_parse_keeps(env, inside_b, false, depth);
    }
}

proof fn lemma_array_tag_placed(
    env: ParseEnv,
    a: ParseState,
    b: ParseState,
    tag: u8,
    id: nat,
    depth: nat,
    w: Places,
    nc: nat,
    d: nat,
    from: nat,
    to: nat,
)
    requires
        same_bytes(env.buf, w),
        placed(a, b, w, nc, d, from, to),
        from == 0 ==> to == 0,
        nc <= id < a.graph.len(),
        tag == ARRAY,
        fill_untracked(env, a, tag, id, depth),
        spec_fill(env, a, tag, id, depth) matches Ok((a2, out)) && stays(a, b, a2.pos, w),
    ensures
        fill_placed(env, a, b, tag, id, depth, w, nc, d, from, to),
    decreases depth, 3nat, 0nat,
{
    if let Ok((count, start)) = spec_read_varint(env.buf, a.pos) {
        lemma_items_advance(env, at(a, start), count as nat, depth);
        lemma_varint_placed(env.buf, w, a.pos, b.pos);
        let start_b = spec_read_varint(env.buf, b.pos)->Ok_0.1;
        lemma_array_placed(env, at(a, start), at(b, start_b), count, depth, w, nc, d, from, to);
        crate::laws::lemma_array_keeps(env, at(a, start), count, depth);
        if let Ok((ac, items)) = spec_parse_array(env, at(a, start), count, depth) {
            let bc = spec_parse_array(env, at(b, start_b), count, depth)->Ok_0.0;
            lemma_cells_set(ac.graph, bc.graph, nc, d, id, Node::Array(items));
        }
    }
}

proof fn lemma_arrayref_placed(
    env: ParseEnv,
    a: ParseState,
    b: ParseState,
    tag: u8,
    id: nat,
    depth: nat,
    w: Places,
    nc: nat,
    d: nat,
    from: nat,
    to: nat,
)
    requires
        same_bytes(env.buf, w),
        placed(a, b, w, nc, d, from, to),
        from == 0 ==> to == 0,
        nc <= id < a.graph.len(),
        ARRAYREF_0 <= tag <= ARRAYREF_15,
        fill_untracked(env, a, tag, id, depth),
        spec_fill(env, a, tag, id, depth) matches Ok((a2, out)) && stays(a, b, a2.pos, w),
    ensures
        fill_placed(env, a, b, tag, id, depth, w, nc, d, from, to),
    decreases depth, 3nat, 0nat,
{
    let count = (tag - ARRAYREF_0) as u64;
    lemma_array_placed(env, a, b, count, depth, w, nc, d, from, to);
    crate::laws::lemma_array_keeps(env, a, count, depth);
    if let Ok((ac, items)) = spec_parse_array(env, a, count, depth) {
        let bc = spec_parse_array(env, b, count, depth)->Ok_0.0;
        lemma_cells_push(ac.graph, bc.graph, nc, d, Node::Array(items));
        lemma_cells_set(
            ac.graph.push(Node::Array(items)),
            bc.graph.push(renamed_node(Node::Array(items), nc, d)),
            nc,
            d,
            id,
            Node::Ref(ac.graph.len()),
        );
    }
}

proof fn lemma_hash_tag_placed(
    env: ParseEnv,
    a: ParseState,
    b: ParseState,
    tag: u8,
    id: nat,
    depth: nat,
    w: Places,
    nc: nat,
    d: nat,
    from: nat,
    to: nat,
)
    requires
        same_bytes(env.buf, w),
        placed(a, b, w, nc, d, from, to),
        from == 0 ==> to == 0,
        nc <= id < a.graph.len(),
        tag == HASH,
        fill_untracked(env, a, tag, id, depth),
        spec_fill(env, a, tag, id, depth) matches Ok((a2, out)) && stays(a, b, a2.pos, w),
    ensures
        fill_placed(env, a, b, tag, id, depth, w, nc, d, from, to),
    decreases depth, 3nat, 0nat,
{
    if let Ok((count, start)) = spec_read_varint(env.buf, a.pos) {
        lemma_entries_advance(env, with_copy_pos(at(a, start), 0), count as nat, depth);
        lemma_varint_placed(env.buf, w, a.pos, b.pos);
        let start_b = spec_read_varint(env.buf, b.pos)->Ok_0.1;
        lemma_hash_placed(env, at(a, start), at(b, start_b), count, depth, w, nc, d, from, to);
        crate::laws::lemma_hash_keeps(env, at(a, start), count, depth);
        if let Ok((ac, entries)) = spec_parse_hash(env, at(a, start), count, depth) {
            let bc = spec_parse_hash(env, at(b, start_b), count, depth)->Ok_0.0;
            lemma_cells_set(ac.graph, bc.graph, nc, d, id, Node::Hash(entries));
        }
    }
}

proof fn lemma_hashref_placed(
    env: ParseEnv,
    a: ParseState,
    b: ParseState,
    tag: u8,
    id: nat,
    depth: nat,
    w: Places,
    nc: nat,
    d: nat,
    from: nat,
    to: nat,
)
    requires
        same_bytes(env.buf, w),
        placed(a, b, w, nc, d, from, to),
        from == 0 ==> to == 0,
        nc <= id < a.graph.len(),
        HASHREF_0 <= tag <= HASHREF_15,
        fill_untracked(env, a, tag, id, depth),
        spec_fill(env, a, tag, id, depth) matches Ok((a2, out)) && stays(a, b, a2.pos, w),
    ensures
        fill_placed(env, a, b, tag, id, depth, w, nc, d, from, to),
    decreases depth, 3nat, 0nat,
{
    let count = (tag - HASHREF_0) as u64;
    lemma_hash_placed(env, a, b, count, depth, w, nc, d, from, to);
    crate::laws::lemma_hash_keeps(env, a, count, depth);
    if let Ok((ac, entries)) = spec_parse_hash(env, a, count, depth) {
        let bc = spec_parse_hash(env, b, count, depth)->Ok_0.0;
        lemma_cells_push(ac.graph, bc.graph, nc, d, Node::Hash(entries));
        lemma_cells_set(
            ac.graph.push(Node::Hash(entries)),
            bc.graph.push(renamed_node(Node::Hash(entries), nc, d)),
            nc,
            d,
            id,
            Node::Ref(ac.graph.len()),
        );
    }
}

proof fn lemma_objectv_placed(
    env: ParseEnv,
    a: ParseState,
    b: ParseState,
    tag: u8,
    id: nat,
    depth: nat,
    w: Places,
    nc: nat,
    d: nat,
    from: nat,
    to: nat,
)
    requires
        same_bytes(env.buf, w),
        placed(a, b, w, nc, d, from, to),
        from == 0 ==> to == 0,
        nc <= id < a.graph.len(),
        tag == OBJECTV || tag == OBJECTV_FREEZE,
        fill_untracked(env, a, tag, id, depth),
        spec_fill(env, a, tag, id, depth) matches Ok((a2, out)) && stays(a, b, a2.pos, w),
    ensures
        fill_placed(env, a, b, tag, id, depth, w, nc, d, from, to),
    decreases depth, 3nat, 0nat,
{
    if let Ok((named, class)) = spec_lookup(env, a) {
        lemma_parse_advances(env, named, false, depth);
        lemma_lookup_placed(env, a, b, w, nc, d, from, to);
        let named_b = spec_lookup(env, b)->Ok_0.0;
        lemma_inner_placed(env, named, named_b, false, depth, w, nc, d, from, to);
        lemma_parse_keeps(env, named, false, depth);
        if let Ok((ac, value)) = spec_parse_inner(env, named, false, depth) {
            let bc = spec_parse_inner(env, named_b, false, depth)->Ok_0.0;
            lemma_object_placed(ac, bc, tag == OBJECTV_FREEZE, id, class, value, nc, d);
        }
    }
}

proof fn lemma_regexp_placed(
    env: ParseEnv,
    a: ParseState,
    b: ParseState,
    tag: u8,
    id: nat,
    depth: nat,
    w: Places,
    nc: nat,
    d: nat,
    from: nat,
    to: nat,
)
    requires
        same_bytes(env.buf, w),
        placed(a, b, w, nc, d, from, to),
        from == 0 ==> to == 0,
        nc <= id < a.graph.len(),
        tag == REGEXP,
        fill_untracked(env, a, tag, id, depth),
        spec_fill(env, a, tag, id, depth) matches Ok((a2, out)) && stays(a, b, a2.pos, w),
    ensures
        fill_placed(env, a, b, tag, id, depth, w, nc, d, from, to),
    decreases depth, 3nat, 0nat,
{
    if let Ok((first, pattern)) = spec_parse_inner(env, a, false, depth) {
        lemma_parse_advances(env, first, false, depth);
        lemma_inner_placed(env, a, b, false, depth, w, nc, d, from, to);
        lemma_parse_keeps(env, a, false, depth);
        let first_b = spec_parse_inner(env, b, false, depth)->Ok_0.0;
        lemma_inner_placed(env, first, first_b, false, depth, w, nc, d, from, to);
        lemma_parse_keeps(env, first, false, depth);
        if let Ok((ac, flags)) = spec_parse_inner(env, first, false, depth) {
            let bc = spec_parse_inner(env, first_b, false, depth)->Ok_0.0;
            lemma_strings_placed(ac.graph, bc.graph, nc, d, pattern);
            lemma_strings_placed(ac.graph, bc.graph, nc, d, flags);
            lemma_cells_set(ac.graph, bc.graph, nc, d, id, Node::Regexp { pattern, flags });
        }
    }
}

proof fn lemma_object_placed(
    a: ParseState,
    b: ParseState,
    frozen: bool,
    id: nat,
    class: nat,
    value: nat,
    nc: nat,
    d: nat,
)
    requires
        cells_alike(a.graph, b.graph, nc, d),
        nc <= id < a.graph.len(),
        spec_finish_object(a, frozen, id, class, value) is Ok,
    ensures
        spec_finish_object(b, frozen, id + d, renamed(class, nc, d), renamed(value, nc, d)) matches Ok(
            (b2, out),
        ) && out == id + d && cells_alike(
            spec_finish_object(a, frozen, id, class, value)->Ok_0.0.graph,
            b2.graph,
            nc,
            d,
        ) && b2 == (ParseState { graph: b2.graph, ..b }),
{
    lemma_strings_placed(a.graph, b.graph, nc, d, class);
    if frozen {
        lemma_cells_set(a.graph, b.graph, nc, d, id, Node::ObjectFreeze { class, value });
    } else {
        lemma_cells_set(a.graph, b.graph, nc, d, id, Node::Object { class, value });
    }
}

proof fn lemma_array_placed(
    env: ParseEnv,
    a: ParseState,
    b: ParseState,
    count: u64,
    depth: nat,
    w: Places,
    nc: nat,
    d: nat,
    from: nat,
    to: nat,
)
    requires
        same_bytes(env.buf, w),
        placed(a, b, w, nc, d, from, to),
        from == 0 ==> to == 0,
        count > env.cfg.max_array_size || items_untracked(env, a, count as nat, depth),
        spec_parse_array(env, a, count, depth) matches Ok((a2, items)) && stays(a, b, a2.pos, w),
    ensures
        steps_placed(
            spec_parse_array(env, a, count, depth),
            spec_parse_array(env, b, count, depth),
            a,
            b,
            w,
            nc,
            d,
            from,
            to,
        ),
        spec_parse_array(env, b, count, depth) matches Ok((b2, items_b)) && items_b
            == renamed_items(spec_parse_array(env, a, count, depth)->Ok_0.1, nc, d),
    decreases depth, 2nat, 0nat,
{
    lemma_items_placed(env, a, b, count as nat, depth, w, nc, d, from, to);
}

proof fn lemma_items_placed(
    env: ParseEnv,
    a: ParseState,
    b: ParseState,
    count: nat,
    depth: nat,
    w: Places,
    nc: nat,
    d: nat,
    from: nat,
    to: nat,
)
    requires
        same_bytes(env.buf, w),
        placed(a, b, w, nc, d, from, to),
        from == 0 ==> to == 0,
        items_untracked(env, a, count, depth),
        spec_parse_items(env, a, count, depth) matches Ok((a2, items)) && stays(a, b, a2.pos, w),
    ensures
        steps_placed(
            spec_parse_items(env, a, count, depth),
            spec_parse_items(env, b, count, depth),
            a,
            b,
            w,
            nc,
            d,
            from,
            to,
        ),
        spec_parse_items(env, b, count, depth) matches Ok((b2, items_b)) && items_b
            == renamed_items(spec_parse_items(env, a, count, depth)->Ok_0.1, nc, d),
    decreases depth, 1nat, count,
{
    if count > 0 {
        if let Ok((before, items)) = spec_parse_items(env, a, (count - 1) as nat, depth) {
            lemma_parse_advances(env, before, false, depth);
            lemma_items_advance(env, a, (count - 1) as nat, depth);
            lemma_items_placed(env, a, b, (count - 1) as nat, depth, w, nc, d, from, to);
            let (before_b, items_b) = spec_parse_items(env, b, (count - 1) as nat, depth)->Ok_0;
            lemma_inner_placed(env, before, before_b, false, depth, w, nc, d, from, to);
            if let Ok((a2, item)) = spec_parse_inner(env, before, false, depth) {
                assert(renamed_items(items.push(item), nc, d) =~= renamed_items(items, nc, d).push(
                    renamed(item, nc, d),
                ));
            }
        }
    } else {
        assert(renamed_items(Seq::<nat>::empty(), nc, d) =~= Seq::<nat>::empty());
    }
}

proof fn lemma_hash_placed(
    env: ParseEnv,
    a: ParseState,
    b: ParseState,
    count: u64,
    depth: nat,
    w: Places,
    nc: nat,
    d: nat,
    from: nat,
    to: nat,
)
    requires
        same_bytes(env.buf, w),
        placed(a, b, w, nc, d, from, to),
        from == 0 ==> to == 0,
        count > env.cfg.max_hash_size || entries_untracked(
            env,
            with_copy_pos(a, 0),
            count as nat,
            depth,
        ),
        spec_parse_hash(env, a, count, depth) matches Ok((a2, entries)) && stays(a, b, a2.pos, w),
    ensures
        steps_placed(
            spec_parse_hash(env, a, count, depth),
            spec_parse_hash(env, b, count, depth),
            a,
            b,
            w,
            nc,
            d,
            from,
            to,
        ),
        spec_parse_hash(env, b, count, depth) matches Ok((b2, entries_b)) && entries_b
            == renamed_entries(spec_parse_hash(env, a, count, depth)->Ok_0.1, nc, d),
    decreases depth, 2nat, 0nat,
{
    let a0 = with_copy_pos(a, 0);
    let b0 = with_copy_pos(b, 0);
    lemma_entries_placed(env, a0, b0, count as nat, depth, w, nc, d, from, to);
}

proof fn lemma_entries_placed(
    env: ParseEnv,
    a: ParseState,
    b: ParseState,
    count: nat,
    depth: nat,
    w: Places,
    nc: nat,
    d: nat,
    from: nat,
    to: nat,
)
    requires
        same_bytes(env.buf, w),
        placed(a, b, w, nc, d, from, to),
        from == 0 ==> to == 0,
        a.copy_pos == 0,
        b.copy_pos == 0,
        entries_untracked(env, a, count, depth),
        spec_parse_entries(env, a, count, depth) matches Ok((a2, entries)) && stays(
            a,
            b,
            a2.pos,
            w,
        ),
    ensures
        steps_placed(
            spec_parse_entries(env, a, count, depth),
            spec_parse_entries(env, b, count, depth),
            a,
            b,
            w,
            nc,
            d,
            from,
            to,
        ),
        spec_parse_entries(env, b, count, depth) matches Ok((b2, entries_b)) && entries_b
            == renamed_entries(spec_parse_entries(env, a, count, depth)->Ok_0.1, nc, d),
    decreases depth, 1nat, count,
{
    if count > 0 {
        if let Ok((before, entries)) = spec_parse_entries(env, a, (count - 1) as nat, depth) {
            lemma_entries_advance(env, a, (count - 1) as nat, depth);
            lemma_key_advances(env, before, true);
            lemma_key_keeps(env, before, true);
            if let Ok((keyed, key)) = spec_parse_str(env, before) {
                lemma_parse_advances(env, keyed, false, depth);
                lemma_entries_placed(env, a, b, (count - 1) as nat, depth, w, nc, d, from, to);
                let (before_b, entries_b) = spec_parse_entries(
                    env,
                    b,
                    (count - 1) as nat,
                    depth,
                )->Ok_0;
                lemma_key_placed(env, before, before_b, true, w, nc, d, from, to);
                let keyed_b = spec_parse_str(env, before_b)->Ok_0.0;
                assert(placed(keyed, keyed_b, w, nc, d, from, to));
                lemma_inner_placed(env, keyed, keyed_b, false, depth, w, nc, d, from, to);
                if let Ok((a2, value)) = spec_parse_inner(env, keyed, false, depth) {
                    assert(renamed_entries(entries.insert(key, value), nc, d) =~= renamed_entries(
                        entries,
                        nc,
                        d,
                    ).insert(key, renamed(value, nc, d)));
                }
            }
        }
    } else {
        assert(renamed_entries(Map::<Seq<u8>, nat>::empty(), nc, d) =~= Map::<
            Seq<u8>,
            nat,
        >::empty());
    }
}

/// Equal bytes are parsed alike wherever they stand.
///
/// Let a value be parsed at the place `w.first`, where it takes `w.n`
/// bytes, without anything being tracked, and let the same bytes stand at
/// `w.second`. Take a state `b` at `w.second` that has the cells of `a`,
/// renamed, perhaps more cells, and tracks what `a` tracks; let `b` stand
/// inside a copy only if `a` does. Then a value is parsed at `w.second` as
/// well, and takes as many bytes. The cells that the two parses make
/// correspond one to one: each holds what its namesake holds, with the
/// cells it refers to renamed, and the one value is the namesake of the other.
pub proof fn lemma_parse_placed(
    env: ParseEnv,
    a: ParseState,
    b: ParseState,
    depth: nat,
    w: Places,
    nc: nat,
    d: nat,
)
    requires
        same_bytes(env.buf, w),
        a.pos == w.first,
        b.pos == w.second,
        a.copy_pos == 0 ==> b.copy_pos == 0,
        cells_alike(a.graph, b.graph, nc, d),
        tracks_alike(a.track, b.track, nc, d),
        inner_untracked(env, a, false, depth),
        spec_parse_inner(env, a, false, depth) matches Ok((a2, out)) && a2.pos == w.first + w.n,
    ensures
        spec_parse_inner(env, b, false, depth) matches Ok((b2, out_b)) && spec_parse_inner(
            env,
            a,
            false,
            depth,
        ) matches Ok((a2, out)) && out_b == renamed(out, nc, d) && b2.pos == w.second + w.n
            && cells_alike(a2.graph, b2.graph, nc, d) && tracks_alike(a2.track, b2.track, nc, d),
{
    lemma_inner_placed(env, a, b, false, depth, w, nc, d, a.copy_pos, b.copy_pos);
}

/// A copy is alike what the bytes of its target give in place of a copy.
///
/// Let an untracked copy be parsed in `st`, and let its target take `w.n`
/// bytes from `w.first` on and track nothing. Let the same bytes stand at
/// `w.second`, where they are parsed in a state `other` that has the cells
/// of `st`, the one made for the copy's tag, perhaps more, and tracks what
/// `st` tracks. Then those bytes are parsed to a value that is alike the
/// value of the copy: what the two parses make is the same, cell for cell,
/// with the cells renamed.
pub proof fn lemma_copy_alike_inline(
    env: ParseEnv,
    st: ParseState,
    other: ParseState,
    depth: nat,
    p: usize,
    end: nat,
    w: Places,
    d: nat,
)
    requires
        depth > 0,
        crate::alike::copy_at(env, st, p, end),
        same_bytes(env.buf, w),
        w.first == p - 1,
        other.pos == w.second,
        cells_alike(st.graph.push(Node::Undef), other.graph, st.graph.len() + 1, d),
        tracks_alike(st.track, other.track, st.graph.len() + 1, d),
        inner_untracked(
            env,
            crate::alike::copy_target(st, p, end),
            false,
            (depth - 1) as nat,
        ),
        spec_parse_inner(
            env,
            crate::alike::copy_target(st, p, end),
            false,
            (depth - 1) as nat,
        ) matches Ok((done, out)) && done.pos == w.first + w.n,
    ensures
        spec_parse_inner(env, st, false, depth) matches Ok((copied, cell)) && spec_parse_inner(
            env,
            other,
            false,
            (depth - 1) as nat,
        ) matches Ok((inline, out)) && out == renamed(cell, st.graph.len() + 1, d) && inline.pos
            == w.second + w.n && cells_alike(copied.graph, inline.graph, st.graph.len() + 1, d),
{
    let (byte, pos) = spec_read_tag(env.buf, st.pos)->Ok_0;
    reader::lemma_varlen_end(env.buf, pos);
    crate::laws::lemma_copy_is_target(env, st, depth, byte, pos, p, end);
    let target = crate::alike::copy_target(st, p, end);
    lemma_parse_placed(env, target, other, (depth - 1) as nat, w, st.graph.len() + 1, d);
}

} // verus!
