//! Padding between tags does not change what a body means: the proof.
//!
//! A body and the same body with padding bytes put in at one place are parsed
//! side by side. Where the place lies between tags, no tag behind it is
//! tracked and no copy reaches behind it, the two parses build the same graph.
use vstd::prelude::*;
use crate::constants::ALIAS;
use crate::constants::ARRAY;
use crate::constants::ARRAYREF_0;
use crate::constants::ARRAYREF_15;
use crate::constants::BINARY;
use crate::constants::COPY;
use crate::constants::DOUBLE;
use crate::constants::FLOAT;
use crate::constants::HASH;
use crate::constants::HASHREF_0;
use crate::constants::HASHREF_15;
use crate::constants::OBJECT;
use crate::constants::OBJECTV;
use crate::constants::OBJECTV_FREEZE;
use crate::constants::OBJECT_FREEZE;
use crate::constants::REFN;
use crate::constants::REFP;
use crate::constants::REGEXP;
use crate::constants::SHORT_BINARY_0;
use crate::constants::SHORT_BINARY_31;
use crate::constants::STR_UTF8;
use crate::constants::TRACK_BIT;
use crate::constants::TYPE_MASK;
use crate::constants::VARINT;
use crate::constants::WEAKEN;
use crate::constants::ZIGZAG;
use crate::parser::at;
use crate::parser::is_leaf;
use crate::parser::set_node;
use crate::parser::spec_begin_copy;
use crate::parser::spec_end_copy;
use crate::parser::spec_fill;
use crate::parser::spec_finish_object;
use crate::parser::spec_leaf;
use crate::parser::spec_lookup;
use crate::parser::spec_parse_array;
use crate::parser::spec_parse_entries;
use crate::parser::spec_parse_hash;
use crate::parser::spec_parse_inner;
use crate::parser::spec_parse_items;
use crate::parser::spec_parse_str;
use crate::parser::spec_read_long_string;
use crate::parser::spec_read_string;
use crate::parser::spec_str;
use crate::parser::with_copy_pos;
use crate::parser::Error;
use crate::parser::Node;
use crate::parser::ParseEnv;
use crate::parser::ParseState;
use crate::reader;
use crate::reader::remaining;
use crate::reader::spec_read_bytes;
use crate::reader::spec_read_tag;
use crate::reader::spec_read_varint;
use crate::reader::spec_read_varlen;
use crate::reader::spec_read_word;
use crate::reader::spec_read_zigzag;
use crate::varint;

verus! {

/// Whether every byte of `pads` is padding.
pub open spec fn all_padding(pads: Seq<u8>) -> bool {
    forall|i: int| 0 <= i < pads.len() ==> reader::is_pad(#[trigger] pads[i])
}

/// `buf` with `pads` put in before the byte at index `q`.
pub open spec fn with_padding(buf: Seq<u8>, q: nat, pads: Seq<u8>) -> Seq<u8> {
    buf.subrange(0, q as int) + pads + buf.subrange(q as int, buf.len() as int)
}

/// Where the position `pos` of a body lies once `k` bytes were put in at `q`:
/// positions up to `q` stay, those behind it move on by `k`.
pub open spec fn moved(pos: nat, q: nat, k: nat) -> nat {
    if pos <= q {
        pos
    } else {
        pos + k
    }
}

/// The state `st` of a parse of a body, for the body with `k` bytes put in at `q`.
pub open spec fn moved_state(st: ParseState, q: nat, k: nat) -> ParseState {
    ParseState { pos: moved(st.pos, q, k), copy_pos: moved(st.copy_pos, q, k), ..st }
}

/// Whether a payload that lies from `pos` to `end` is clear of the place `q`:
/// it ends there at the latest, or starts behind it.
pub open spec fn clear(pos: nat, end: nat, q: nat) -> bool {
    end <= q || pos > q
}

proof fn lemma_bytes_behind(buf: Seq<u8>, q: nat, pads: Seq<u8>, i: int)
    requires
        q <= buf.len(),
        q <= i < buf.len(),
    ensures
        with_padding(buf, q, pads)[i + pads.len()] == buf[i],
        with_padding(buf, q, pads).len() == buf.len() + pads.len(),
{
}

proof fn lemma_bytes_before(buf: Seq<u8>, q: nat, pads: Seq<u8>, i: int)
    requires
        q <= buf.len(),
        0 <= i < q,
    ensures
        with_padding(buf, q, pads)[i] == buf[i],
        with_padding(buf, q, pads).len() == buf.len() + pads.len(),
{
}

proof fn lemma_bytes_put_in(buf: Seq<u8>, q: nat, pads: Seq<u8>, i: int)
    requires
        q <= buf.len(),
        q <= i < q + pads.len(),
    ensures
        with_padding(buf, q, pads)[i] == pads[i - q],
{
}

/// From the place on, the padded body reads as the body does, `k` bytes later.
proof fn lemma_remaining_behind(buf: Seq<u8>, q: nat, pads: Seq<u8>, pos: nat)
    requires
        q <= buf.len(),
        pos >= q,
    ensures
        remaining(with_padding(buf, q, pads), pos + pads.len()) == remaining(buf, pos),
{
    let padded = with_padding(buf, q, pads);
    let a = remaining(padded, pos + pads.len());
    let b = remaining(buf, pos);
    if pos <= buf.len() {
        assert(a.len() == b.len());
        assert forall|i: int| 0 <= i < a.len() implies a[i] == b[i] by {
            lemma_bytes_behind(buf, q, pads, pos + i);
        }
        assert(a =~= b);
    } else {
        assert(a =~= b);
    }
}

/// A tag behind the place is found in the padded body `k` bytes later.
proof fn lemma_tag_behind(buf: Seq<u8>, q: nat, pads: Seq<u8>, pos: nat)
    requires
        q <= buf.len(),
        pos >= q,
    ensures
        spec_read_tag(with_padding(buf, q, pads), pos + pads.len()) == match spec_read_tag(
            buf,
            pos,
        ) {
            Ok((byte, end)) => Ok((byte, end + pads.len())),
            Err(e) => Err(e),
        },
    decreases buf.len() - pos,
{
    let padded = with_padding(buf, q, pads);
    if pos < buf.len() {
        lemma_bytes_behind(buf, q, pads, pos as int);
        if reader::is_pad(buf[pos as int]) {
            lemma_tag_behind(buf, q, pads, pos + 1);
        }
    } else {
        assert(padded.len() == buf.len() + pads.len());
    }
}

/// A tag is found in the padded body where it is in the body, moved if it
/// lies behind the place.
proof fn lemma_tag_moves(buf: Seq<u8>, q: nat, pads: Seq<u8>, pos: nat)
    requires
        q <= buf.len(),
        all_padding(pads),
        spec_read_tag(buf, pos) is Ok,
    ensures
        spec_read_tag(with_padding(buf, q, pads), moved(pos, q, pads.len())) == match spec_read_tag(
            buf,
            pos,
        ) {
            Ok((byte, end)) => Ok((byte, moved(end, q, pads.len()))),
            Err(e) => Err(e),
        },
    decreases buf.len() - pos,
{
    let padded = with_padding(buf, q, pads);
    let k = pads.len();
    reader::lemma_read_tag_found(buf, pos);
    if pos > q {
        lemma_tag_behind(buf, q, pads, pos);
    } else if pos == q {
        assert(crate::laws::padded(padded, q, k)) by {
            assert forall|i: int| q <= i < q + k implies reader::is_pad(#[trigger] padded[i]) by {
                lemma_bytes_put_in(buf, q, pads, i);
            }
        }
        crate::laws::lemma_read_tag_skips_padding(padded, q, k);
        lemma_tag_behind(buf, q, pads, pos);
    } else {
        lemma_bytes_before(buf, q, pads, pos as int);
        if reader::is_pad(buf[pos as int]) {
            lemma_tag_moves(buf, q, pads, pos + 1);
        }
    }
}

/// What a varint is depends on its own bytes only: bytes that agree with it as
/// far as it goes are the same varint.
pub proof fn lemma_varint_tail_prefix(a: Seq<u8>, b: Seq<u8>, k: nat, n: nat)
    requires
        n <= a.len(),
        n <= b.len(),
        forall|i: int| 0 <= i < n ==> a[i] == b[i],
        varint::varint_tail(a, k) matches Ok((v, end)) && end <= n,
    ensures
        varint::varint_tail(b, k) == varint::varint_tail(a, k),
    decreases 10 - k,
{
    varint::lemma_varint_end_from(a, k);
    if k < 10 && k < a.len() && a[k as int] >= 0x80 {
        lemma_varint_tail_prefix(a, b, k + 1, n);
    }
}

/// A varint that ends at the place at the latest is the same in the padded body.
proof fn lemma_varint_before(buf: Seq<u8>, q: nat, pads: Seq<u8>, pos: nat)
    requires
        q <= buf.len(),
        spec_read_varint(buf, pos) matches Ok((v, end)) && end <= q,
    ensures
        spec_read_varint(with_padding(buf, q, pads), pos) == spec_read_varint(buf, pos),
{
    let padded = with_padding(buf, q, pads);
    let a = remaining(buf, pos);
    let b = remaining(padded, pos);
    varint::lemma_varint_end(a);
    varint::lemma_varint_end_from(a, 0);
    let n = spec_read_varint(buf, pos)->Ok_0.1 - pos;
    assert(pos < q);
    assert forall|i: int| 0 <= i < n implies a[i] == b[i] by {
        lemma_bytes_before(buf, q, pads, pos + i);
    }
    lemma_varint_tail_prefix(a, b, 0, n as nat);
}

/// A varint that is clear of the place is the same in the padded body, moved
/// if it lies behind the place.
proof fn lemma_varint_moves(buf: Seq<u8>, q: nat, pads: Seq<u8>, pos: nat)
    requires
        q <= buf.len(),
        spec_read_varint(buf, pos) matches Ok((v, end)) && clear(pos, end, q),
    ensures
        spec_read_varint(with_padding(buf, q, pads), moved(pos, q, pads.len())) == match spec_read_varint(
            buf,
            pos,
        ) {
            Ok((v, end)) => Ok((v, moved(end, q, pads.len()))),
            Err(e) => Err(e),
        },
{
    varint::lemma_varint_end(remaining(buf, pos));
    if pos > q {
        lemma_remaining_behind(buf, q, pads, pos);
    } else {
        lemma_varint_before(buf, q, pads, pos);
    }
}

proof fn lemma_varlen_moves(buf: Seq<u8>, q: nat, pads: Seq<u8>, pos: nat)
    requires
        q <= buf.len(),
        spec_read_varlen(buf, pos) matches Ok((v, end)) && clear(pos, end, q),
    ensures
        spec_read_varlen(with_padding(buf, q, pads), moved(pos, q, pads.len())) == match spec_read_varlen(
            buf,
            pos,
        ) {
            Ok((v, end)) => Ok((v, moved(end, q, pads.len()))),
            Err(e) => Err(e),
        },
{
    lemma_varint_moves(buf, q, pads, pos);
}

proof fn lemma_zigzag_moves(buf: Seq<u8>, q: nat, pads: Seq<u8>, pos: nat)
    requires
        q <= buf.len(),
        spec_read_zigzag(buf, pos) matches Ok((v, end)) && clear(pos, end, q),
    ensures
        spec_read_zigzag(with_padding(buf, q, pads), moved(pos, q, pads.len())) == match spec_read_zigzag(
            buf,
            pos,
        ) {
            Ok((v, end)) => Ok((v, moved(end, q, pads.len()))),
            Err(e) => Err(e),
        },
{
    lemma_varint_moves(buf, q, pads, pos);
}

/// A word that is clear of the place is the same in the padded body.
proof fn lemma_word_moves(buf: Seq<u8>, q: nat, pads: Seq<u8>, pos: nat, width: nat)
    requires
        q <= buf.len(),
        width == 4 || width == 8,
        spec_read_word(buf, pos, width) matches Ok((v, end)) && clear(pos, end, q),
    ensures
        spec_read_word(with_padding(buf, q, pads), moved(pos, q, pads.len()), width) == match spec_read_word(
            buf,
            pos,
            width,
        ) {
            Ok((v, end)) => Ok((v, moved(end, q, pads.len()))),
            Err(e) => Err(e),
        },
{
    let padded = with_padding(buf, q, pads);
    if pos > q {
        lemma_remaining_behind(buf, q, pads, pos);
    } else {
        let a = remaining(buf, pos);
        let b = remaining(padded, pos);
        assert(pos + width <= q);
        assert forall|i: int| 0 <= i < width implies a[i] == b[i] by {
            lemma_bytes_before(buf, q, pads, pos + i);
        }
        assert(padded.len() == buf.len() + pads.len());
        if width == 8 {
            assert(a.subrange(4, 8) =~= b.subrange(4, 8));
        }
    }
}

/// Bytes that are clear of the place are the same in the padded body.
proof fn lemma_bytes_move(buf: Seq<u8>, q: nat, pads: Seq<u8>, pos: nat, len: nat)
    requires
        q <= buf.len(),
        buf.len() + pads.len() <= usize::MAX,
        spec_read_bytes(buf, pos, len) matches Ok((bytes, end)) && clear(pos, end, q),
    ensures
        spec_read_bytes(with_padding(buf, q, pads), moved(pos, q, pads.len()), len) == match spec_read_bytes(
            buf,
            pos,
            len,
        ) {
            Ok((bytes, end)) => Ok((bytes, moved(end, q, pads.len()))),
            Err(e) => Err(e),
        },
{
    let padded = with_padding(buf, q, pads);
    let k = pads.len();
    assert(padded.len() == buf.len() + k);
    if pos > q {
        let a = padded.subrange((pos + k) as int, (pos + k + len) as int);
        let b = buf.subrange(pos as int, (pos + len) as int);
        assert forall|i: int| 0 <= i < len implies a[i] == b[i] by {
            lemma_bytes_behind(buf, q, pads, pos + i);
        }
        assert(a =~= b);
    } else {
        let a = padded.subrange(pos as int, (pos + len) as int);
        let b = buf.subrange(pos as int, (pos + len) as int);
        assert forall|i: int| 0 <= i < len implies a[i] == b[i] by {
            lemma_bytes_before(buf, q, pads, pos + i);
        }
        assert(a =~= b);
    }
}

/// The surroundings of a parse of the body with `pads` put in at `q`.
pub open spec fn padded_env(env: ParseEnv, q: nat, pads: Seq<u8>) -> ParseEnv {
    ParseEnv { buf: with_padding(env.buf, q, pads), ..env }
}

/// The result `r` of a step on a body, for the body with `k` bytes put in at `q`.
pub open spec fn moved_result<T>(r: Result<(ParseState, T), Error>, q: nat, k: nat) -> Result<
    (ParseState, T),
    Error,
> {
    match r {
        Ok((st, x)) => Ok((moved_state(st, q, k), x)),
        Err(e) => Err(e),
    }
}

/// Whether the place `q` can take padding: it lies in the body, what is put in
/// is padding, and the padded body is still one that a machine can address.
pub open spec fn takes_padding(env: ParseEnv, q: nat, pads: Seq<u8>) -> bool {
    &&& q <= env.buf.len()
    &&& all_padding(pads)
    &&& env.buf.len() + pads.len() <= usize::MAX
}

/// Whether a string of `len` bytes at `pos` is clear of the place.
pub open spec fn string_clear(env: ParseEnv, pos: nat, len: usize, q: nat) -> bool {
    spec_read_string(env, pos, len) matches Ok((bytes, end)) ==> clear(pos, end, q)
}

/// Whether a string at `pos` that is preceded by its length is clear of the
/// place, and its length too.
pub open spec fn long_string_clear(env: ParseEnv, pos: nat, q: nat) -> bool {
    spec_read_varlen(env.buf, pos) matches Ok((len, start)) ==> clear(pos, start, q)
        && string_clear(env, start, len, q)
}

/// Whether the payload of a leaf with tag type `tag` at `st.pos` is clear of the place.
pub open spec fn leaf_clear(env: ParseEnv, st: ParseState, tag: u8, q: nat) -> bool {
    if tag == VARINT || tag == ZIGZAG {
        spec_read_varint(env.buf, st.pos) matches Ok((v, end)) ==> clear(st.pos, end, q)
    } else if tag == FLOAT {
        spec_read_word(env.buf, st.pos, 4) matches Ok((v, end)) ==> clear(st.pos, end, q)
    } else if tag == DOUBLE {
        spec_read_word(env.buf, st.pos, 8) matches Ok((v, end)) ==> clear(st.pos, end, q)
    } else if tag == BINARY || tag == STR_UTF8 {
        long_string_clear(env, st.pos, q)
    } else if SHORT_BINARY_0 <= tag <= SHORT_BINARY_31 {
        string_clear(env, st.pos, (tag - SHORT_BINARY_0) as usize, q)
    } else {
        true
    }
}

/// Whether the offset at `st.pos` is clear of the place.
pub open spec fn offset_clear(env: ParseEnv, st: ParseState, q: nat) -> bool {
    spec_read_varlen(env.buf, st.pos) matches Ok((p, end)) ==> clear(st.pos, end, q)
}

/// Whether the offset of the copy at `st.pos` is clear of the place, and its
/// target does not lie behind the place.
pub open spec fn copy_clear(env: ParseEnv, st: ParseState, q: nat) -> bool {
    spec_read_varlen(env.buf, st.pos) matches Ok((p, end)) ==> clear(st.pos, end, q) && p <= q + 1
}

/// Whether the hash key at `st.pos` is clear of the place: the place does not
/// lie inside a payload, and a copy does not reach behind it.
pub open spec fn str_clear(env: ParseEnv, st: ParseState, outer: bool, q: nat) -> bool
    decreases outer as int,
{
    match spec_read_tag(env.buf, st.pos) {
        Err(_) => true,
        Ok((byte, pos)) => {
            let tag = byte & TYPE_MASK;
            if SHORT_BINARY_0 <= tag <= SHORT_BINARY_31 {
                string_clear(env, pos, (tag - SHORT_BINARY_0) as usize, q)
            } else if tag == STR_UTF8 || tag == BINARY {
                long_string_clear(env, pos, q)
            } else if tag == COPY && outer {
                copy_clear(env, at(st, pos), q) && match spec_begin_copy(env, at(st, pos)) {
                    Ok(inside) => str_clear(env, inside, false, q),
                    Err(_) => true,
                }
            } else {
                true
            }
        },
    }
}

/// Whether the value at `st.pos` is clear of the place `q`: the place does not
/// lie inside a payload, no tag at or behind it is tracked, and no copy reaches
/// behind it.
pub open spec fn inner_clear(
    env: ParseEnv,
    st: ParseState,
    force_track: bool,
    depth: nat,
    q: nat,
) -> bool
    decreases depth, 0nat, 0nat,
{
    if depth == 0 {
        true
    } else {
        match spec_read_tag(env.buf, st.pos) {
            Err(_) => true,
            Ok((byte, pos)) => {
                let tag = byte & TYPE_MASK;
                let kept = force_track || byte & TRACK_BIT != 0;
                let id = st.graph.len();
                let made = ParseState {
                    pos,
                    copy_pos: st.copy_pos,
                    track: if kept {
                        st.track.insert(pos as usize, id)
                    } else {
                        st.track
                    },
                    graph: st.graph.push(Node::Undef),
                };
                (kept ==> pos <= q) && fill_clear(env, made, tag, id, (depth - 1) as nat, q)
            },
        }
    }
}

/// Whether what fills the cell of a tag of type `tag` is clear of the place.
pub open spec fn fill_clear(
    env: ParseEnv,
    st: ParseState,
    tag: u8,
    id: nat,
    depth: nat,
    q: nat,
) -> bool
    decreases depth, 2nat, 0nat,
{
    if is_leaf(tag) {
        leaf_clear(env, st, tag, q)
    } else if tag == REFN || tag == WEAKEN {
        inner_clear(env, st, false, depth, q)
    } else if tag == REFP || tag == ALIAS {
        offset_clear(env, st, q)
    } else if tag == COPY {
        copy_clear(env, st, q) && match spec_begin_copy(env, st) {
            Ok(inside) => inner_clear(env, inside, false, depth, q),
            Err(_) => true,
        }
    } else if tag == ARRAY {
        match spec_read_varint(env.buf, st.pos) {
            Ok((count, start)) => clear(st.pos, start, q) && array_clear(
                env,
                at(st, start),
                count,
                depth,
                q,
            ),
            Err(_) => true,
        }
    } else if ARRAYREF_0 <= tag <= ARRAYREF_15 {
        array_clear(env, st, (tag - ARRAYREF_0) as u64, depth, q)
    } else if tag == HASH {
        match spec_read_varint(env.buf, st.pos) {
            Ok((count, start)) => clear(st.pos, start, q) && hash_clear(
                env,
                at(st, start),
                count,
                depth,
                q,
            ),
            Err(_) => true,
        }
    } else if HASHREF_0 <= tag <= HASHREF_15 {
        hash_clear(env, st, (tag - HASHREF_0) as u64, depth, q)
    } else if tag == OBJECT || tag == OBJECT_FREEZE {
        inner_clear(env, with_copy_pos(st, 0), true, depth, q) && match spec_parse_inner(
            env,
            with_copy_pos(st, 0),
            true,
            depth,
        ) {
            Ok((named, class)) => inner_clear(
                env,
                with_copy_pos(named, st.copy_pos),
                false,
                depth,
                q,
            ),
            Err(_) => true,
        }
    } else if tag == OBJECTV || tag == OBJECTV_FREEZE {
        offset_clear(env, st, q) && match spec_lookup(env, st) {
            Ok((named, class)) => inner_clear(env, named, false, depth, q),
            Err(_) => true,
        }
    } else if tag == REGEXP {
        inner_clear(env, st, false, depth, q) && match spec_parse_inner(env, st, false, depth) {
            Ok((first, pattern)) => inner_clear(env, first, false, depth, q),
            Err(_) => true,
        }
    } else {
        true
    }
}

/// Whether the items of an array of `count` values are clear of the place.
pub open spec fn array_clear(env: ParseEnv, st: ParseState, count: u64, depth: nat, q: nat) -> bool
    decreases depth, 1nat, count + 1,
{
    count > env.cfg.max_array_size || items_clear(env, st, count as nat, depth, q)
}

/// Whether the first `n` values at `st.pos` are clear of the place.
pub open spec fn items_clear(env: ParseEnv, st: ParseState, n: nat, depth: nat, q: nat) -> bool
    decreases depth, 1nat, n,
{
    n == 0 || (items_clear(env, st, (n - 1) as nat, depth, q) && match spec_parse_items(
        env,
        st,
        (n - 1) as nat,
        depth,
    ) {
        Ok((before, items)) => inner_clear(env, before, false, depth, q),
        Err(_) => true,
    })
}

/// Whether the entries of a hash of `count` pairs are clear of the place.
pub open spec fn hash_clear(env: ParseEnv, st: ParseState, count: u64, depth: nat, q: nat) -> bool
    decreases depth, 1nat, count + 1,
{
    count > env.cfg.max_hash_size || entries_clear(
        env,
        with_copy_pos(st, 0),
        count as nat,
        depth,
        q,
    )
}

/// Whether the first `n` pairs at `st.pos` are clear of the place.
pub open spec fn entries_clear(env: ParseEnv, st: ParseState, n: nat, depth: nat, q: nat) -> bool
    decreases depth, 1nat, n,
{
    n == 0 || (entries_clear(env, st, (n - 1) as nat, depth, q) && match spec_parse_entries(
        env,
        st,
        (n - 1) as nat,
        depth,
    ) {
        Ok((before, entries)) => str_clear(env, before, true, q) && match spec_parse_str(
            env,
            before,
        ) {
            Ok((keyed, key)) => inner_clear(env, keyed, false, depth, q),
            Err(_) => true,
        },
        Err(_) => true,
    })
}

proof fn lemma_string_moves(env: ParseEnv, pos: nat, len: usize, q: nat, pads: Seq<u8>)
    requires
        takes_padding(env, q, pads),
        string_clear(env, pos, len, q),
        spec_read_string(env, pos, len) is Ok,
    ensures
        spec_read_string(padded_env(env, q, pads), moved(pos, q, pads.len()), len) == match spec_read_string(
            env,
            pos,
            len,
        ) {
            Ok((bytes, end)) => Ok((bytes, moved(end, q, pads.len()))),
            Err(e) => Err(e),
        },
{
    lemma_bytes_move(env.buf, q, pads, pos, len as nat);
}

proof fn lemma_long_string_moves(env: ParseEnv, pos: nat, q: nat, pads: Seq<u8>)
    requires
        takes_padding(env, q, pads),
        long_string_clear(env, pos, q),
        spec_read_long_string(env, pos) is Ok,
    ensures
        spec_read_long_string(padded_env(env, q, pads), moved(pos, q, pads.len())) == match spec_read_long_string(
            env,
            pos,
        ) {
            Ok((bytes, end)) => Ok((bytes, moved(end, q, pads.len()))),
            Err(e) => Err(e),
        },
{
    lemma_varlen_moves(env.buf, q, pads, pos);
    if let Ok((len, start)) = spec_read_varlen(env.buf, pos) {
        lemma_string_moves(env, start, len, q, pads);
    }
}

proof fn lemma_leaf_moves(env: ParseEnv, st: ParseState, tag: u8, id: nat, q: nat, pads: Seq<u8>)
    requires
        takes_padding(env, q, pads),
        is_leaf(tag),
        leaf_clear(env, st, tag, q),
        spec_leaf(env, st, tag, id) is Ok,
    ensures
        spec_leaf(padded_env(env, q, pads), moved_state(st, q, pads.len()), tag, id) == Ok::<
            ParseState,
            Error,
        >(moved_state(spec_leaf(env, st, tag, id)->Ok_0, q, pads.len())),
{
    if tag == VARINT {
        lemma_varint_moves(env.buf, q, pads, st.pos);
    } else if tag == ZIGZAG {
        lemma_zigzag_moves(env.buf, q, pads, st.pos);
    } else if tag == FLOAT {
        lemma_word_moves(env.buf, q, pads, st.pos, 4);
    } else if tag == DOUBLE {
        lemma_word_moves(env.buf, q, pads, st.pos, 8);
    } else if tag == BINARY || tag == STR_UTF8 {
        lemma_long_string_moves(env, st.pos, q, pads);
    } else if SHORT_BINARY_0 <= tag <= SHORT_BINARY_31 {
        lemma_string_moves(env, st.pos, (tag - SHORT_BINARY_0) as usize, q, pads);
    }
}

proof fn lemma_lookup_moves(env: ParseEnv, st: ParseState, q: nat, pads: Seq<u8>)
    requires
        takes_padding(env, q, pads),
        offset_clear(env, st, q),
        spec_lookup(env, st) is Ok,
    ensures
        spec_lookup(padded_env(env, q, pads), moved_state(st, q, pads.len())) == moved_result(
            spec_lookup(env, st),
            q,
            pads.len(),
        ),
{
    lemma_varlen_moves(env.buf, q, pads, st.pos);
}

proof fn lemma_begin_copy_moves(env: ParseEnv, st: ParseState, q: nat, pads: Seq<u8>)
    requires
        takes_padding(env, q, pads),
        copy_clear(env, st, q),
        spec_begin_copy(env, st) is Ok,
    ensures
        spec_begin_copy(padded_env(env, q, pads), moved_state(st, q, pads.len())) == Ok::<
            ParseState,
            Error,
        >(moved_state(spec_begin_copy(env, st)->Ok_0, q, pads.len())),
{
    lemma_varlen_moves(env.buf, q, pads, st.pos);
}

proof fn lemma_str_moves(env: ParseEnv, st: ParseState, outer: bool, q: nat, pads: Seq<u8>)
    requires
        takes_padding(env, q, pads),
        str_clear(env, st, outer, q),
        spec_str(env, st, outer) is Ok,
    ensures
        spec_str(padded_env(env, q, pads), moved_state(st, q, pads.len()), outer) == moved_result(
            spec_str(env, st, outer),
            q,
            pads.len(),
        ),
    decreases outer as int,
{
    let k = pads.len();
    lemma_tag_moves(env.buf, q, pads, st.pos);
    if let Ok((byte, pos)) = spec_read_tag(env.buf, st.pos) {
        let tag = byte & TYPE_MASK;
        if SHORT_BINARY_0 <= tag <= SHORT_BINARY_31 {
            lemma_string_moves(env, pos, (tag - SHORT_BINARY_0) as usize, q, pads);
        } else if tag == STR_UTF8 || tag == BINARY {
            lemma_long_string_moves(env, pos, q, pads);
        } else if tag == COPY {
            assert(outer);
            assert(at(moved_state(st, q, k), moved(pos, q, k)) == moved_state(at(st, pos), q, k));
            lemma_begin_copy_moves(env, at(st, pos), q, pads);
            if let Ok(inside) = spec_begin_copy(env, at(st, pos)) {
                lemma_str_moves(env, inside, false, q, pads);
                if let Ok((done, bytes)) = spec_str(env, inside, false) {
                    assert(spec_end_copy(moved_state(done, q, k)) == moved_state(
                        spec_end_copy(done),
                        q,
                        k,
                    ));
                }
            }
        }
    }
}

proof fn lemma_inner_moves(
    env: ParseEnv,
    st: ParseState,
    force_track: bool,
    depth: nat,
    q: nat,
    pads: Seq<u8>,
)
    requires
        takes_padding(env, q, pads),
        inner_clear(env, st, force_track, depth, q),
        spec_parse_inner(env, st, force_track, depth) is Ok,
    ensures
        spec_parse_inner(
            padded_env(env, q, pads),
            moved_state(st, q, pads.len()),
            force_track,
            depth,
        ) == moved_result(spec_parse_inner(env, st, force_track, depth), q, pads.len()),
    decreases depth, 0nat, 0nat,
{
    let k = pads.len();
    let env2 = padded_env(env, q, pads);
    lemma_tag_moves(env.buf, q, pads, st.pos);
    reader::lemma_read_tag_found(env.buf, st.pos);
    if let Ok((byte, pos)) = spec_read_tag(env.buf, st.pos) {
        let tag = byte & TYPE_MASK;
        let kept = force_track || byte & TRACK_BIT != 0;
        let id = st.graph.len();
        let made = ParseState {
            pos,
            copy_pos: st.copy_pos,
            track: if kept {
                st.track.insert(pos as usize, id)
            } else {
                st.track
            },
            graph: st.graph.push(Node::Undef),
        };
        let st2 = moved_state(st, q, k);
        let pos2 = moved(pos, q, k);
        let made2 = ParseState {
            pos: pos2,
            copy_pos: st2.copy_pos,
            track: if kept {
                st2.track.insert(pos2 as usize, id)
            } else {
                st2.track
            },
            graph: st2.graph.push(Node::Undef),
        };
        assert(made2 == moved_state(made, q, k));
        lemma_fill_moves(env, made, tag, id, (depth - 1) as nat, q, pads);
        if let Ok((filled, out)) = spec_fill(env, made, tag, id, (depth - 1) as nat) {
            let filled2 = moved_state(filled, q, k);
            assert(spec_fill(env2, made2, tag, id, (depth - 1) as nat) == Ok::<
                (ParseState, nat),
                Error,
            >((filled2, out)));
            if kept && (tag == ALIAS || tag == COPY) {
                assert((ParseState { track: filled2.track.insert(pos2 as usize, out), ..filled2 })
                    == moved_state(
                    ParseState { track: filled.track.insert(pos as usize, out), ..filled },
                    q,
                    k,
                ));
            }
        }
    }
}

proof fn lemma_fill_moves(
    env: ParseEnv,
    st: ParseState,
    tag: u8,
    id: nat,
    depth: nat,
    q: nat,
    pads: Seq<u8>,
)
    requires
        takes_padding(env, q, pads),
        fill_clear(env, st, tag, id, depth, q),
        spec_fill(env, st, tag, id, depth) is Ok,
    ensures
        spec_fill(padded_env(env, q, pads), moved_state(st, q, pads.len()), tag, id, depth)
            == moved_result(spec_fill(env, st, tag, id, depth), q, pads.len()),
    decreases depth, 2nat, 0nat,
{
    let k = pads.len();
    let env2 = padded_env(env, q, pads);
    let st2 = moved_state(st, q, k);
    if is_leaf(tag) {
        lemma_leaf_moves(env, st, tag, id, q, pads);
    } else if tag == REFN || tag == WEAKEN {
        lemma_inner_moves(env, st, false, depth, q, pads);
        if let Ok((done, child)) = spec_parse_inner(env, st, false, depth) {
            let node = if tag == REFN {
                Node::Ref(child)
            } else {
                Node::WeakRef(child)
            };
            assert(set_node(moved_state(done, q, k), id, node) == moved_state(
                set_node(done, id, node),
                q,
                k,
            ));
        }
    } else if tag == REFP {
        lemma_lookup_moves(env, st, q, pads);
        if let Ok((done, target)) = spec_lookup(env, st) {
            assert(set_node(moved_state(done, q, k), id, Node::Ref(target)) == moved_state(
                set_node(done, id, Node::Ref(target)),
                q,
                k,
            ));
        }
    } else if tag == ALIAS {
        lemma_lookup_moves(env, st, q, pads);
    } else if tag == COPY {
        lemma_begin_copy_moves(env, st, q, pads);
        if let Ok(inside) = spec_begin_copy(env, st) {
            lemma_inner_moves(env, inside, false, depth, q, pads);
            if let Ok((done, out)) = spec_parse_inner(env, inside, false, depth) {
                assert(spec_end_copy(moved_state(done, q, k)) == moved_state(
                    spec_end_copy(done),
                    q,
                    k,
                ));
            }
        }
    } else if tag == ARRAY {
        lemma_varint_moves(env.buf, q, pads, st.pos);
        if let Ok((count, start)) = spec_read_varint(env.buf, st.pos) {
            assert(at(st2, moved(start, q, k)) == moved_state(at(st, start), q, k));
            lemma_array_moves(env, at(st, start), count, depth, q, pads);
            if let Ok((done, items)) = spec_parse_array(env, at(st, start), count, depth) {
                assert(set_node(moved_state(done, q, k), id, Node::Array(items)) == moved_state(
                    set_node(done, id, Node::Array(items)),
                    q,
                    k,
                ));
            }
        }
    } else if ARRAYREF_0 <= tag <= ARRAYREF_15 {
        lemma_array_moves(env, st, (tag - ARRAYREF_0) as u64, depth, q, pads);
        if let Ok((done, items)) = spec_parse_array(env, st, (tag - ARRAYREF_0) as u64, depth) {
            let done2 = moved_state(done, q, k);
            let grown = ParseState { graph: done.graph.push(Node::Array(items)), ..done };
            let grown2 = ParseState { graph: done2.graph.push(Node::Array(items)), ..done2 };
            assert(grown2 == moved_state(grown, q, k));
            assert(set_node(grown2, id, Node::Ref(done2.graph.len())) == moved_state(
                set_node(grown, id, Node::Ref(done.graph.len())),
                q,
                k,
            ));
        }
    } else if tag == HASH {
        lemma_varint_moves(env.buf, q, pads, st.pos);
        if let Ok((count, start)) = spec_read_varint(env.buf, st.pos) {
            assert(at(st2, moved(start, q, k)) == moved_state(at(st, start), q, k));
            lemma_hash_moves(env, at(st, start), count, depth, q, pads);
            if let Ok((done, entries)) = spec_parse_hash(env, at(st, start), count, depth) {
                assert(set_node(moved_state(done, q, k), id, Node::Hash(entries)) == moved_state(
                    set_node(done, id, Node::Hash(entries)),
                    q,
                    k,
                ));
            }
        }
    } else if HASHREF_0 <= tag <= HASHREF_15 {
        lemma_hash_moves(env, st, (tag - HASHREF_0) as u64, depth, q, pads);
        if let Ok((done, entries)) = spec_parse_hash(env, st, (tag - HASHREF_0) as u64, depth) {
            let done2 = moved_state(done, q, k);
            let grown = ParseState { graph: done.graph.push(Node::Hash(entries)), ..done };
            let grown2 = ParseState { graph: done2.graph.push(Node::Hash(entries)), ..done2 };
            assert(grown2 == moved_state(grown, q, k));
            assert(set_node(grown2, id, Node::Ref(done2.graph.len())) == moved_state(
                set_node(grown, id, Node::Ref(done.graph.len())),
                q,
                k,
            ));
        }
    } else if tag == OBJECT || tag == OBJECT_FREEZE {
        let start = with_copy_pos(st, 0);
        assert(with_copy_pos(st2, 0) == moved_state(start, q, k));
        lemma_inner_moves(env, start, true, depth, q, pads);
        if let Ok((named, class)) = spec_parse_inner(env, start, true, depth) {
            let resumed = with_copy_pos(named, st.copy_pos);
            assert(with_copy_pos(moved_state(named, q, k), st2.copy_pos) == moved_state(
                resumed,
                q,
                k,
            ));
            lemma_inner_moves(env, resumed, false, depth, q, pads);
            if let Ok((done, value)) = spec_parse_inner(env, resumed, false, depth) {
                lemma_object_moves(done, tag == OBJECT_FREEZE, id, class, value, q, k);
            }
        }
    } else if tag == OBJECTV || tag == OBJECTV_FREEZE {
        lemma_lookup_moves(env, st, q, pads);
        if let Ok((named, class)) = spec_lookup(env, st) {
            lemma_inner_moves(env, named, false, depth, q, pads);
            if let Ok((done, value)) = spec_parse_inner(env, named, false, depth) {
                lemma_object_moves(done, tag == OBJECTV_FREEZE, id, class, value, q, k);
            }
        }
    } else if tag == REGEXP {
        lemma_inner_moves(env, st, false, depth, q, pads);
        if let Ok((first, pattern)) = spec_parse_inner(env, st, false, depth) {
            lemma_inner_moves(env, first, false, depth, q, pads);
            if let Ok((done, flags)) = spec_parse_inner(env, first, false, depth) {
                let done2 = moved_state(done, q, k);
                assert((ParseState {
                    graph: crate::parser::spec_set_regexp(done2.graph, id, pattern, flags),
                    ..done2
                }) == moved_state(
                    ParseState {
                        graph: crate::parser::spec_set_regexp(done.graph, id, pattern, flags),
                        ..done
                    },
                    q,
                    k,
                ));
            }
        }
    }
}

proof fn lemma_object_moves(
    st: ParseState,
    frozen: bool,
    id: nat,
    class: nat,
    value: nat,
    q: nat,
    k: nat,
)
    ensures
        spec_finish_object(moved_state(st, q, k), frozen, id, class, value) == moved_result(
            spec_finish_object(st, frozen, id, class, value),
            q,
            k,
        ),
{
    let st2 = moved_state(st, q, k);
    assert((ParseState {
        graph: crate::parser::spec_set_object(st2.graph, frozen, id, class, value),
        ..st2
    }) == moved_state(
        ParseState { graph: crate::parser::spec_set_object(st.graph, frozen, id, class, value), ..st },
        q,
        k,
    ));
}

proof fn lemma_array_moves(
    env: ParseEnv,
    st: ParseState,
    count: u64,
    depth: nat,
    q: nat,
    pads: Seq<u8>,
)
    requires
        takes_padding(env, q, pads),
        array_clear(env, st, count, depth, q),
        spec_parse_array(env, st, count, depth) is Ok,
    ensures
        spec_parse_array(padded_env(env, q, pads), moved_state(st, q, pads.len()), count, depth)
            == moved_result(spec_parse_array(env, st, count, depth), q, pads.len()),
    decreases depth, 1nat, count + 1,
{
    lemma_items_move(env, st, count as nat, depth, q, pads);
}

proof fn lemma_items_move(env: ParseEnv, st: ParseState, n: nat, depth: nat, q: nat, pads: Seq<u8>)
    requires
        takes_padding(env, q, pads),
        items_clear(env, st, n, depth, q),
        spec_parse_items(env, st, n, depth) is Ok,
    ensures
        spec_parse_items(padded_env(env, q, pads), moved_state(st, q, pads.len()), n, depth)
            == moved_result(spec_parse_items(env, st, n, depth), q, pads.len()),
    decreases depth, 1nat, n,
{
    if n > 0 {
        lemma_items_move(env, st, (n - 1) as nat, depth, q, pads);
        if let Ok((before, items)) = spec_parse_items(env, st, (n - 1) as nat, depth) {
            lemma_inner_moves(env, before, false, depth, q, pads);
        }
    }
}

proof fn lemma_hash_moves(
    env: ParseEnv,
    st: ParseState,
    count: u64,
    depth: nat,
    q: nat,
    pads: Seq<u8>,
)
    requires
        takes_padding(env, q, pads),
        hash_clear(env, st, count, depth, q),
        spec_parse_hash(env, st, count, depth) is Ok,
    ensures
        spec_parse_hash(padded_env(env, q, pads), moved_state(st, q, pads.len()), count, depth)
            == moved_result(spec_parse_hash(env, st, count, depth), q, pads.len()),
    decreases depth, 1nat, count + 1,
{
    let k = pads.len();
    let start = with_copy_pos(st, 0);
    assert(with_copy_pos(moved_state(st, q, k), 0) == moved_state(start, q, k));
    lemma_entries_move(env, start, count as nat, depth, q, pads);
    if let Ok((done, entries)) = spec_parse_entries(env, start, count as nat, depth) {
        assert(with_copy_pos(moved_state(done, q, k), moved_state(st, q, k).copy_pos)
            == moved_state(with_copy_pos(done, st.copy_pos), q, k));
    }
}

proof fn lemma_entries_move(
    env: ParseEnv,
    st: ParseState,
    n: nat,
    depth: nat,
    q: nat,
    pads: Seq<u8>,
)
    requires
        takes_padding(env, q, pads),
        entries_clear(env, st, n, depth, q),
        spec_parse_entries(env, st, n, depth) is Ok,
    ensures
        spec_parse_entries(padded_env(env, q, pads), moved_state(st, q, pads.len()), n, depth)
            == moved_result(spec_parse_entries(env, st, n, depth), q, pads.len()),
    decreases depth, 1nat, n,
{
    if n > 0 {
        lemma_entries_move(env, st, (n - 1) as nat, depth, q, pads);
        if let Ok((before, entries)) = spec_parse_entries(env, st, (n - 1) as nat, depth) {
            lemma_str_moves(env, before, true, q, pads);
            if let Ok((keyed, key)) = spec_parse_str(env, before) {
                lemma_inner_moves(env, keyed, false, depth, q, pads);
            }
        }
    }
}

/// Padding between tags does not change what is parsed.
///
/// Take a body of which a value is parsed, and a place `q` in it that is clear
/// for that value: `q` does not lie inside a payload, no tag at or behind `q`
/// is tracked, and no copy has its target behind `q`. Put padding in at `q`.
/// Then the value is parsed from the padded body as well: it is the same cell
/// of the same graph, the same positions are tracked, and the cursors stand
/// where they stood, moved on by the padding if they stood behind `q`.
pub proof fn lemma_padding_between_tags(
    env: ParseEnv,
    st: ParseState,
    force_track: bool,
    depth: nat,
    q: nat,
    pads: Seq<u8>,
)
    requires
        takes_padding(env, q, pads),
        inner_clear(env, st, force_track, depth, q),
        spec_parse_inner(env, st, force_track, depth) is Ok,
    ensures
        spec_parse_inner(
            padded_env(env, q, pads),
            moved_state(st, q, pads.len()),
            force_track,
            depth,
        ) matches Ok((done, out)) && spec_parse_inner(env, st, force_track, depth) matches Ok(
            (plain, cell),
        ) && out == cell && done.graph == plain.graph && done.track == plain.track && done
            == moved_state(plain, q, pads.len()),
{
    lemma_inner_moves(env, st, force_track, depth, q, pads);
}

} // verus!
