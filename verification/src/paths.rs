//! File paths as the bytes that the system holds: their components, extensions and order.

use vstd::prelude::*;

verus! {

/// The byte that separates the parts of a path.
pub const SLASH: u8 = 0x2f;

/// The byte that sets an extension off.
pub const DOT: u8 = 0x2e;

/// Where `b` first occurs in `s`, or the length of `s` if it does not.
pub open spec fn first_byte(s: Seq<u8>, b: u8) -> int
    decreases s.len(),
{
    if s.len() == 0 || s.first() == b {
        0
    } else {
        1 + first_byte(s.drop_first(), b)
    }
}

proof fn lemma_first_byte(s: Seq<u8>, b: u8)
    ensures
        0 <= first_byte(s, b) <= s.len(),
        first_byte(s, b) < s.len() ==> s[first_byte(s, b)] == b,
        forall|i: int| 0 <= i < first_byte(s, b) ==> s[i] != b,
    decreases s.len(),
{
    if s.len() > 0 && s.first() != b {
        lemma_first_byte(s.drop_first(), b);
        assert forall|i: int| 0 <= i < first_byte(s, b) implies s[i] != b by {
            if i > 0 {
                assert(s.drop_first()[i - 1] == s[i]);
            }
        }
    }
}

proof fn lemma_first_byte_is(s: Seq<u8>, b: u8, n: int)
    requires
        0 <= n <= s.len(),
        forall|i: int| 0 <= i < n ==> s[i] != b,
        n < s.len() ==> s[n] == b,
    ensures
        first_byte(s, b) == n,
{
    lemma_first_byte(s, b);
    if first_byte(s, b) < n {
        assert(s[first_byte(s, b)] == b);
    }
}

/// The parts of `path` between its slashes, empty ones among them.
pub open spec fn parts(path: Seq<u8>) -> Seq<Seq<u8>>
    decreases path.len(),
    via parts_decreases
{
    let n = first_byte(path, SLASH);
    if n >= path.len() {
        seq![path]
    } else {
        seq![path.take(n)] + parts(path.skip(n + 1))
    }
}

#[via_fn]
proof fn parts_decreases(path: Seq<u8>) {
    lemma_first_byte(path, SLASH);
}

/// One step of a path.
pub enum Component {
    /// The slash that starts an absolute path.
    Root,
    /// A leading `.`.
    Here,
    /// A `..`.
    Parent,
    /// Anything else.
    Name(Seq<u8>),
}

impl Component {
    /// The place of the kind of component among the kinds.
    pub open spec fn rank(self) -> int {
        match self {
            Component::Root => 0,
            Component::Here => 1,
            Component::Parent => 2,
            Component::Name(_) => 3,
        }
    }

    /// The bytes of a name.
    pub open spec fn name(self) -> Seq<u8> {
        match self {
            Component::Name(name) => name,
            _ => Seq::empty(),
        }
    }
}

/// A part that adds a step: one that is not empty and not `.`.
pub open spec fn is_step(part: Seq<u8>) -> bool {
    part.len() > 0 && part != seq![DOT]
}

/// The step that a part adds.
pub open spec fn step(part: Seq<u8>) -> Component {
    if part == seq![DOT, DOT] {
        Component::Parent
    } else {
        Component::Name(part)
    }
}

/// What a path starts from: the root, the directory that a leading `.` names, or nothing.
pub open spec fn lead(path: Seq<u8>) -> Seq<Component> {
    if path.len() > 0 && path.first() == SLASH {
        seq![Component::Root]
    } else if parts(path).first() == seq![DOT] {
        seq![Component::Here]
    } else {
        Seq::empty()
    }
}

/// The steps that `parts` add.
pub open spec fn steps(parts: Seq<Seq<u8>>) -> Seq<Component> {
    parts.filter(|part: Seq<u8>| is_step(part)).map_values(|part: Seq<u8>| step(part))
}

/// The components of a path. Repeated and trailing slashes add nothing, nor does a `.`
/// behind the first part.
pub open spec fn components(path: Seq<u8>) -> Seq<Component> {
    lead(path) + steps(parts(path))
}

/// The name that a path ends in, unless it ends in `..` or has no name at all.
pub open spec fn file_name(path: Seq<u8>) -> Option<Seq<u8>> {
    let all = components(path);
    if all.len() > 0 {
        match all.last() {
            Component::Name(name) => Some(name),
            _ => None,
        }
    } else {
        None
    }
}

/// Where `b` last occurs in `s`, or -1 if it does not.
pub open spec fn last_byte(s: Seq<u8>, b: u8) -> int
    decreases s.len(),
{
    if s.len() == 0 {
        -1
    } else if s.last() == b {
        s.len() - 1
    } else {
        last_byte(s.drop_last(), b)
    }
}

/// What follows the last dot of the file name. A dot in front does not count.
pub open spec fn extension(path: Seq<u8>) -> Option<Seq<u8>> {
    match file_name(path) {
        Some(name) => {
            let dot = last_byte(name, DOT);
            if dot > 0 {
                Some(name.skip(dot + 1))
            } else {
                None
            }
        },
        None => None,
    }
}

/// One component as a range of the bytes of its path.
#[derive(Clone, Copy)]
pub struct Piece {
    /// 0 for the root, 1 for a leading `.`, 2 for `..` and 3 for a name.
    pub rank: u8,
    pub from: usize,
    pub to: usize,
}

impl Piece {
    /// The component that the piece of `path` stands for.
    pub open spec fn component(self, path: Seq<u8>) -> Component {
        if self.rank == 0 {
            Component::Root
        } else if self.rank == 1 {
            Component::Here
        } else if self.rank == 2 {
            Component::Parent
        } else {
            Component::Name(path.subrange(self.from as int, self.to as int))
        }
    }

    /// The piece lies inside `path`.
    pub open spec fn fits(self, path: Seq<u8>) -> bool {
        self.rank <= 3 && self.from <= self.to <= path.len()
    }
}

/// The components that pieces of `path` stand for.
pub open spec fn components_at(path: Seq<u8>, pieces: Seq<Piece>) -> Seq<Component> {
    pieces.map_values(|piece: Piece| piece.component(path))
}

proof fn lemma_steps_join(first: Seq<Seq<u8>>, rest: Seq<Seq<u8>>)
    ensures
        steps(first + rest) == steps(first) + steps(rest),
{
    let keep = |part: Seq<u8>| is_step(part);
    Seq::filter_distributes_over_add(first, rest, keep);
    assert(steps(first + rest) == steps(first) + steps(rest));
}

proof fn lemma_steps_one(part: Seq<u8>)
    ensures
        steps(seq![part]) == if is_step(part) {
            seq![step(part)]
        } else {
            Seq::empty()
        },
{
    reveal(Seq::filter);
    let keep = |p: Seq<u8>| is_step(p);
    assert(seq![part].drop_last() == Seq::<Seq<u8>>::empty());
    assert(Seq::<Seq<u8>>::empty().filter(keep) == Seq::<Seq<u8>>::empty());
    if is_step(part) {
        assert(seq![part].filter(keep) == seq![part]);
        assert(steps(seq![part]) == seq![step(part)]);
    } else {
        assert(steps(seq![part]) == Seq::<Component>::empty());
    }
}

/// Appends the step that `path[from..to]` adds, if it adds one.
fn push_step(path: &Vec<u8>, from: usize, to: usize, pieces: &mut Vec<Piece>)
    requires
        from <= to <= path@.len(),
        forall|i: int| 0 <= i < old(pieces)@.len() ==> (#[trigger] old(pieces)@[i]).fits(path@),
    ensures
        forall|i: int| 0 <= i < final(pieces)@.len() ==> (#[trigger] final(pieces)@[i]).fits(path@),
        components_at(path@, final(pieces)@) == components_at(path@, old(pieces)@) + steps(
            seq![path@.subrange(from as int, to as int)],
        ),
{
    let ghost part = path@.subrange(from as int, to as int);
    let ghost before = pieces@;
    let dot: bool = to - from == 1 && path[from] == DOT;
    proof {
        lemma_steps_one(part);
        if dot {
            assert(part == seq![DOT]);
        } else if part == seq![DOT] {
            assert(part.len() == seq![DOT].len());
            assert(part[0] == path@[from as int]);
        }
    }
    if from < to && !dot {
        let parent: bool = to - from == 2 && path[from] == DOT && path[from + 1] == DOT;
        proof {
            if parent {
                assert(part == seq![DOT, DOT]);
            } else if part == seq![DOT, DOT] {
                assert(part.len() == seq![DOT, DOT].len());
                assert(part[0] == path@[from as int] && part[1] == path@[from + 1]);
            }
        }
        let rank: u8 = if parent {
            2
        } else {
            3
        };
        let piece: Piece = Piece { rank, from, to };
        pieces.push(piece);
        assert(piece.component(path@) == step(part));
        assert(components_at(path@, pieces@) == components_at(path@, before) + seq![step(part)]);
    } else {
        assert(components_at(path@, pieces@) == components_at(path@, before) + steps(seq![part]));
    }
}

/// The components of `path`, as pieces of it.
pub fn pieces_of(path: &Vec<u8>) -> (pieces: Vec<Piece>)
    ensures
        forall|i: int| 0 <= i < pieces@.len() ==> (#[trigger] pieces@[i]).fits(path@),
        components_at(path@, pieces@) == components(path@),
{
    let mut pieces: Vec<Piece> = Vec::new();
    let rooted: bool = path.len() > 0 && path[0] == SLASH;
    let here: bool = path.len() > 0 && path[0] == DOT && (path.len() == 1 || path[1] == SLASH);
    proof {
        lemma_first_byte(path@, SLASH);
        let n = first_byte(path@, SLASH);
        let first = parts(path@).first();
        assert(first == path@.take(n)) by {
            assert(path@.take(path@.len() as int) == path@);
        }
        if here {
            if path@.len() > 1 {
                lemma_first_byte_is(path@, SLASH, 1);
            } else {
                lemma_first_byte_is(path@, SLASH, path@.len() as int);
            }
            assert(first == seq![DOT]);
        } else if first == seq![DOT] {
            assert(first.len() == seq![DOT].len());
            assert(first[0] == path@[0]);
        }
    }
    if rooted {
        let piece: Piece = Piece { rank: 0, from: 0, to: 0 };
        pieces.push(piece);
    } else if here {
        let piece: Piece = Piece { rank: 1, from: 0, to: 0 };
        pieces.push(piece);
    }
    assert(components_at(path@, pieces@) == lead(path@));
    let mut start: usize = 0;
    let mut i: usize = 0;
    proof {
        assert(path@.skip(0) == path@);
    }
    while i < path.len()
        invariant
            start <= i <= path@.len(),
            forall|k: int| start <= k < i ==> path@[k] != SLASH,
            forall|k: int| 0 <= k < pieces@.len() ==> (#[trigger] pieces@[k]).fits(path@),
            components(path@) == components_at(path@, pieces@) + steps(
                parts(path@.skip(start as int)),
            ),
        decreases path@.len() - i,
    {
        if path[i] == SLASH {
            let ghost before = components_at(path@, pieces@);
            push_step(path, start, i, &mut pieces);
            proof {
                let rest = path@.skip(start as int);
                let part = path@.subrange(start as int, i as int);
                lemma_first_byte_is(rest, SLASH, i - start);
                assert(rest.take(i - start) == part);
                assert(rest.skip(i - start + 1) == path@.skip(i + 1));
                lemma_steps_join(seq![part], parts(path@.skip(i + 1)));
                assert(before + (steps(seq![part]) + steps(parts(path@.skip(i + 1)))) == before
                    + steps(seq![part]) + steps(parts(path@.skip(i + 1))));
            }
            start = i + 1;
        }
        i = i + 1;
    }
    proof {
        let rest = path@.skip(start as int);
        lemma_first_byte_is(rest, SLASH, rest.len() as int);
        assert(rest == path@.subrange(start as int, path@.len() as int));
    }
    push_step(path, start, path.len(), &mut pieces);
    pieces
}

proof fn lemma_last_byte_is(s: Seq<u8>, b: u8, n: int)
    requires
        -1 <= n < s.len(),
        n >= 0 ==> s[n] == b,
        forall|i: int| n < i < s.len() ==> s[i] != b,
    ensures
        last_byte(s, b) == n,
    decreases s.len(),
{
    if n + 1 < s.len() {
        lemma_last_byte_is(s.drop_last(), b, n);
    }
}

/// Whether the extension of `path` is the text `wanted`.
pub fn has_extension(path: &Vec<u8>, wanted: &str) -> (has: bool)
    ensures
        has == (extension(path@) == Some(vstd::utf8::encode_utf8(wanted@))),
{
    let pieces: Vec<Piece> = pieces_of(path);
    if pieces.len() == 0 {
        return false;
    }
    let last: Piece = pieces[pieces.len() - 1];
    assert(components(path@).last() == last.component(path@));
    if last.rank < 3 {
        return false;
    }
    let ghost name = path@.subrange(last.from as int, last.to as int);
    let mut dot: usize = last.to;
    while dot > last.from && path[dot - 1] != DOT
        invariant
            last.from <= dot <= last.to <= path@.len(),
            forall|i: int| dot <= i < last.to ==> path@[i] != DOT,
        decreases dot,
    {
        dot = dot - 1;
    }
    proof {
        lemma_last_byte_is(name, DOT, dot - 1 - last.from);
    }
    if dot <= last.from + 1 {
        return false;
    }
    assert(name.skip(dot - last.from) == path@.subrange(dot as int, last.to as int));
    same_bytes(path, dot, last.to, wanted.as_bytes())
}

/// Whether `path[from..to]` and `bytes` are the same bytes.
fn same_bytes(path: &Vec<u8>, from: usize, to: usize, bytes: &[u8]) -> (same: bool)
    requires
        from <= to <= path@.len(),
    ensures
        same == (path@.subrange(from as int, to as int) == bytes@),
{
    if to - from != bytes.len() {
        return false;
    }
    let mut i: usize = 0;
    while i < bytes.len()
        invariant
            i <= bytes@.len(),
            from + bytes@.len() == to,
            to <= path@.len(),
            forall|k: int| 0 <= k < i ==> path@[from + k] == bytes@[k],
        decreases bytes@.len() - i,
    {
        if path[from + i] != bytes[i] {
            assert(path@.subrange(from as int, to as int)[i as int] != bytes@[i as int]);
            return false;
        }
        i = i + 1;
    }
    assert(path@.subrange(from as int, to as int) == bytes@);
    true
}

/// Whether `path` ends in the text `suffix`.
pub fn ends_with(path: &Vec<u8>, suffix: &str) -> (ends: bool)
    ensures
        ends == vstd::utf8::encode_utf8(suffix@).is_suffix_of(path@),
{
    let bytes: &[u8] = suffix.as_bytes();
    if bytes.len() > path.len() {
        return false;
    }
    same_bytes(path, path.len() - bytes.len(), path.len(), bytes)
}

/// The byte at `i` is a slash, or a dot that stands alone behind a slash.
pub open spec fn is_idle_at(tail: Seq<u8>, i: int) -> bool {
    ||| tail[i] == 0x2f
    ||| tail[i] == 0x2e && i > 0 && tail[i - 1] == 0x2f && (i + 1 < tail.len() ==> tail[i + 1]
        == 0x2f)
}

/// Bytes behind a name that add nothing to a path: slashes, and dots that stand alone between
/// them or behind the last one.
pub open spec fn is_idle(tail: Seq<u8>) -> bool {
    &&& tail.len() > 0 ==> tail[0] == 0x2f
    &&& forall|i: int| 0 <= i < tail.len() ==> #[trigger] is_idle_at(tail, i)
}

/// Bytes that a name can follow in a path: none, or any up to a slash.
pub open spec fn is_front(front: Seq<u8>) -> bool {
    front.len() > 0 ==> front.last() == 0x2f
}

/// `path` is made of `front`, a part without slashes, and `tail`, which adds nothing.
pub open spec fn is_made_of(path: Seq<u8>, front: Seq<u8>, part: Seq<u8>, tail: Seq<u8>) -> bool {
    &&& path == front + part + tail
    &&& is_front(front)
    &&& forall|i: int| 0 <= i < part.len() ==> #[trigger] part[i] != 0x2f
    &&& is_idle(tail)
}

/// `path` ends in a name that is made of something, a dot and `ext`.
pub open spec fn is_named(path: Seq<u8>, ext: Seq<u8>) -> bool {
    exists|front: Seq<u8>, stem: Seq<u8>, tail: Seq<u8>|
        stem.len() > 0 && #[trigger] is_made_of(path, front, stem + seq![0x2eu8] + ext, tail)
}

proof fn lemma_parts_join(a: Seq<u8>, b: Seq<u8>)
    ensures
        parts(a.push(SLASH) + b) == parts(a) + parts(b),
    decreases a.len(),
{
    let all = a.push(SLASH) + b;
    let n = first_byte(a, SLASH);
    lemma_first_byte(a, SLASH);
    assert forall|i: int| 0 <= i < n implies all[i] != SLASH by {
        assert(all[i] == a[i]);
    }
    lemma_first_byte_is(all, SLASH, n);
    if n >= a.len() {
        assert(all.take(n) == a);
        assert(all.skip(n + 1) == b);
    } else {
        let rest = a.skip(n + 1);
        lemma_parts_join(rest, b);
        assert(all.take(n) == a.take(n));
        assert(all.skip(n + 1) == rest.push(SLASH) + b);
        assert(parts(all) == parts(a) + parts(b));
    }
}

proof fn lemma_parts_of_part(part: Seq<u8>)
    requires
        forall|i: int| 0 <= i < part.len() ==> #[trigger] part[i] != SLASH,
    ensures
        parts(part) == seq![part],
{
    lemma_first_byte_is(part, SLASH, part.len() as int);
}

/// A part behind a slash is idle exactly if it adds no step.
proof fn lemma_idle_part(tail: Seq<u8>, n: int)
    requires
        1 <= n <= tail.len(),
        tail[0] == SLASH,
        forall|i: int| 1 <= i < n ==> tail[i] != SLASH,
        n < tail.len() ==> tail[n] == SLASH,
    ensures
        is_idle(tail) <==> !is_step(tail.subrange(1, n)) && is_idle(tail.skip(n)),
{
    let part = tail.subrange(1, n);
    let inner = tail.skip(n);
    assert forall|i: int| 0 <= i < inner.len() implies (is_idle_at(tail, n + i)
        <==> #[trigger] is_idle_at(inner, i)) by {
        assert(inner[i] == tail[n + i]);
        if i > 0 {
            assert(inner[i - 1] == tail[n + i - 1]);
        }
        if i + 1 < inner.len() {
            assert(inner[i + 1] == tail[n + i + 1]);
        }
    }
    if is_idle(tail) {
        if n > 1 {
            assert(is_idle_at(tail, 1));
            assert(n == 2);
            assert(part == seq![DOT]);
        }
        assert forall|i: int| 0 <= i < inner.len() implies #[trigger] is_idle_at(inner, i) by {
            assert(is_idle_at(tail, n + i));
        }
    }
    if !is_step(part) && is_idle(inner) {
        if part == seq![DOT] {
            assert(part.len() == seq![DOT].len());
            assert(part[0] == seq![DOT][0]);
            assert(tail[1] == part[0]);
        }
        assert forall|i: int| 0 <= i < tail.len() implies #[trigger] is_idle_at(tail, i) by {
            if i >= n {
                assert(is_idle_at(inner, i - n));
            }
        }
    }
}

/// What follows a slash adds no step exactly if it is idle.
proof fn lemma_idle(rest: Seq<u8>)
    ensures
        is_idle(seq![SLASH] + rest) <==> steps(parts(rest)).len() == 0,
    decreases rest.len(),
{
    let tail = seq![SLASH] + rest;
    let n = first_byte(rest, SLASH);
    lemma_first_byte(rest, SLASH);
    let part = rest.take(n);
    assert forall|i: int| 1 <= i < n + 1 implies tail[i] != SLASH by {
        assert(tail[i] == rest[i - 1]);
    }
    lemma_idle_part(tail, n + 1);
    assert(tail.subrange(1, n + 1) == part);
    lemma_steps_one(part);
    if n >= rest.len() {
        assert(part == rest);
        assert(tail.skip(n + 1).len() == 0);
    } else {
        let after = rest.skip(n + 1);
        lemma_idle(after);
        lemma_steps_join(seq![part], parts(after));
        assert(tail.skip(n + 1) == seq![SLASH] + after);
    }
}

/// The last step of a path that is made of a front, a part and an idle tail is that part, if
/// the part is a step.
proof fn lemma_last_step(path: Seq<u8>, front: Seq<u8>, part: Seq<u8>, tail: Seq<u8>)
    requires
        is_made_of(path, front, part, tail),
        is_step(part),
    ensures
        steps(parts(path)).len() > 0,
        steps(parts(path)).last() == step(part),
{
    let end = part + tail;
    lemma_parts_of_part(part);
    lemma_steps_one(part);
    if tail.len() == 0 {
        assert(end == part);
    } else {
        let rest = tail.drop_first();
        assert(tail == seq![SLASH] + rest);
        lemma_idle(rest);
        assert(end == part.push(SLASH) + rest);
        lemma_parts_join(part, rest);
        lemma_steps_join(seq![part], parts(rest));
    }
    assert(steps(parts(end)).last() == step(part));
    if front.len() == 0 {
        assert(path == end);
    } else {
        let f = front.drop_last();
        assert(front == f.push(SLASH));
        assert(path == f.push(SLASH) + end);
        lemma_parts_join(f, end);
        lemma_steps_join(parts(f), parts(end));
    }
}

/// A path with a step is made of a front, the part that is its last step, and an idle tail.
proof fn lemma_made_of_last_step(path: Seq<u8>) -> (pieces: (Seq<u8>, Seq<u8>, Seq<u8>))
    requires
        steps(parts(path)).len() > 0,
    ensures
        is_made_of(path, pieces.0, pieces.1, pieces.2),
        is_step(pieces.1),
        steps(parts(path)).last() == step(pieces.1),
    decreases path.len(),
{
    let n = first_byte(path, SLASH);
    lemma_first_byte(path, SLASH);
    let part = path.take(n);
    lemma_steps_one(part);
    let none = Seq::<u8>::empty();
    if n >= path.len() {
        assert(part == path);
        assert(path == none + path + none);
        (none, path, none)
    } else {
        let rest = path.skip(n + 1);
        lemma_steps_join(seq![part], parts(rest));
        assert(steps(parts(path)) == steps(seq![part]) + steps(parts(rest)));
        lemma_idle(rest);
        if steps(parts(rest)).len() > 0 {
            let (f, last, tail) = lemma_made_of_last_step(rest);
            let front = path.take(n + 1) + f;
            assert(front.last() == 0x2f) by {
                if f.len() == 0 {
                    assert(front == path.take(n + 1));
                    assert(path[n] == SLASH);
                }
            }
            assert(path == front + last + tail) by {
                assert(path == path.take(n + 1) + rest);
            }
            (front, last, tail)
        } else {
            let tail = path.skip(n);
            assert(tail == seq![SLASH] + rest);
            assert(path == none + part + tail);
            (none, part, tail)
        }
    }
}

/// A path has the extension `ext`, which has neither slashes nor dots, exactly if the name
/// that it ends in is something, a dot and `ext`, at whatever depth.
pub proof fn lemma_extension_is_named(path: Seq<u8>, ext: Seq<u8>)
    requires
        ext.len() > 0,
        forall|i: int| 0 <= i < ext.len() ==> #[trigger] ext[i] != 0x2f && ext[i] != 0x2e,
    ensures
        extension(path) == Some(ext) <==> is_named(path, ext),
{
    let all = components(path);
    if is_named(path, ext) {
        let (front, stem, tail) = choose|front: Seq<u8>, stem: Seq<u8>, tail: Seq<u8>|
            stem.len() > 0 && #[trigger] is_made_of(path, front, stem + seq![0x2eu8] + ext, tail);
        let name = stem + seq![0x2eu8] + ext;
        assert(name.len() >= 3);
        assert(name[name.len() - 1] == ext[ext.len() - 1]);
        if name == seq![DOT] {
            assert(name.len() == seq![DOT].len());
        }
        if name == seq![DOT, DOT] {
            assert(name.len() == seq![DOT, DOT].len());
        }
        lemma_last_step(path, front, name, tail);
        assert(all.last() == Component::Name(name));
        assert forall|i: int| stem.len() < i < name.len() implies name[i] != DOT by {
            assert(name[i] == ext[i - stem.len() - 1]);
        }
        lemma_last_byte_is(name, DOT, stem.len() as int);
        assert(name.skip(stem.len() as int + 1) == ext);
    }
    if extension(path) == Some(ext) {
        if steps(parts(path)).len() == 0 {
            assert(all == lead(path));
        } else {
            assert(all.last() == steps(parts(path)).last());
        }
        let (front, name, tail) = lemma_made_of_last_step(path);
        lemma_last_byte(name, DOT);
        let dot = last_byte(name, DOT);
        let stem = name.take(dot);
        assert(name == stem + seq![0x2eu8] + ext);
        assert(is_made_of(path, front, stem + seq![0x2eu8] + ext, tail));
    }
}

proof fn lemma_last_byte(s: Seq<u8>, b: u8)
    ensures
        -1 <= last_byte(s, b) < s.len(),
        last_byte(s, b) >= 0 ==> s[last_byte(s, b)] == b,
    decreases s.len(),
{
    if s.len() > 0 && s.last() != b {
        lemma_last_byte(s.drop_last(), b);
    }
}

/// A path has an extension exactly if the name that it ends in is something, a dot and the
/// extension, at whatever depth and behind whatever directories.
pub proof fn law_extension_ends_name(path: &Vec<u8>, wanted: &str, has: bool)
    requires
        wanted@.len() > 0,
        forall|i: int|
            0 <= i < vstd::utf8::encode_utf8(wanted@).len() ==> #[trigger] vstd::utf8::encode_utf8(
                wanted@,
            )[i] != 0x2f && vstd::utf8::encode_utf8(wanted@)[i] != 0x2e,
        call_ensures(has_extension, (path, wanted), has),
    ensures
        has <==> is_named(path@, vstd::utf8::encode_utf8(wanted@)),
{
    vstd::utf8::encode_utf8_first_scalar(wanted@);
    assert(vstd::utf8::encode_utf8(wanted@).len() > 0);
    lemma_extension_is_named(path@, vstd::utf8::encode_utf8(wanted@));
}

/// Whether a path ends in a text is whether it is something and the bytes of that text.
pub proof fn law_ends_with_is_suffix(path: &Vec<u8>, suffix: &str, ends: bool)
    requires
        call_ensures(ends_with, (path, suffix), ends),
    ensures
        ends <==> exists|front: Seq<u8>|
            path@ == #[trigger] (front + vstd::utf8::encode_utf8(suffix@)),
{
    let bytes = vstd::utf8::encode_utf8(suffix@);
    if ends {
        let front = path@.take(path@.len() - bytes.len());
        assert(path@ == front + bytes);
    }
    if exists|front: Seq<u8>| path@ == #[trigger] (front + bytes) {
        let front = choose|front: Seq<u8>| path@ == #[trigger] (front + bytes);
        assert(bytes.is_suffix_of(front + bytes));
    }
}

/// A name of a file or a directory: bytes without a slash, other than `.` and `..`.
pub open spec fn is_plain(name: Seq<u8>) -> bool {
    &&& name.len() > 0
    &&& forall|i: int| 0 <= i < name.len() ==> #[trigger] name[i] != 0x2f
    &&& name != seq![0x2eu8]
    &&& name != seq![0x2eu8, 0x2eu8]
}

/// Bytes that can follow a name in a path: none, or any from a slash on.
pub open spec fn is_rest(rest: Seq<u8>) -> bool {
    rest.len() > 0 ==> rest[0] == 0x2f
}

/// The steps that the bytes behind a name add.
pub open spec fn steps_behind(rest: Seq<u8>) -> Seq<Component> {
    if rest.len() == 0 {
        Seq::empty()
    } else {
        steps(parts(rest.drop_first()))
    }
}

proof fn lemma_components_of_front(front: Seq<u8>)
    requires
        is_front(front),
    ensures
        front.len() == 0 ==> components(front) == Seq::<Component>::empty(),
        front.len() > 0 ==> components(front) == lead(front) + steps(parts(front.drop_last())),
        front.len() > 1 ==> components(front) == components(front.drop_last()),
{
    let none = Seq::<u8>::empty();
    lemma_parts_of_part(none);
    lemma_steps_one(none);
    if front.len() == 0 {
        assert(front == none);
        assert(parts(front).first() == none);
        if none == seq![DOT] {
            assert(none.len() == seq![DOT].len());
        }
    } else {
        let f = front.drop_last();
        assert(front == f.push(SLASH) + none);
        lemma_parts_join(f, none);
        lemma_steps_join(parts(f), parts(none));
        assert(steps(parts(front)) == steps(parts(f)));
        if f.len() > 0 {
            lemma_first_byte(f, SLASH);
            assert(parts(f).len() > 0);
            assert(parts(front).first() == parts(f).first());
            assert(front.first() == f.first());
        }
    }
}

/// The components of a path go on from those of its front with the name behind it.
pub proof fn lemma_components_split(front: Seq<u8>, name: Seq<u8>, rest: Seq<u8>)
    requires
        is_front(front),
        is_plain(name),
        is_rest(rest),
    ensures
        components(front + name + rest) == components(front) + seq![Component::Name(name)]
            + steps_behind(rest),
{
    let path = front + name + rest;
    let end = name + rest;
    lemma_parts_of_part(name);
    lemma_steps_one(name);
    assert(step(name) == Component::Name(name));
    if rest.len() == 0 {
        assert(end == name);
    } else {
        let r = rest.drop_first();
        assert(end == name.push(SLASH) + r);
        lemma_parts_join(name, r);
        lemma_steps_join(seq![name], parts(r));
    }
    assert(steps(parts(end)) == seq![Component::Name(name)] + steps_behind(rest));
    assert(parts(end).first() == name);
    lemma_components_of_front(front);
    if front.len() == 0 {
        assert(path == end);
        assert(path.first() == name[0]);
        assert(lead(path) == Seq::<Component>::empty());
    } else {
        let f = front.drop_last();
        assert(front == f.push(SLASH));
        assert(path == f.push(SLASH) + end);
        lemma_parts_join(f, end);
        lemma_steps_join(parts(f), parts(end));
        assert(front == f.push(SLASH) + Seq::<u8>::empty());
        lemma_parts_join(f, Seq::<u8>::empty());
        lemma_first_byte(f, SLASH);
        assert(parts(f).len() > 0);
        assert(parts(path).first() == parts(f).first());
        assert(parts(front).first() == parts(f).first());
        assert(path.first() == front.first());
        assert(lead(path) == lead(front));
    }
    assert(components(path) == components(front) + seq![Component::Name(name)] + steps_behind(
        rest,
    ));
}

/// The components of what lies below a path go on from those of the path.
pub proof fn lemma_components_below(path: Seq<u8>, name: Seq<u8>, rest: Seq<u8>)
    requires
        path.len() > 0,
        is_plain(name),
        is_rest(rest),
    ensures
        components(path + seq![0x2fu8] + name + rest) == components(path) + (
        seq![Component::Name(name)] + steps_behind(rest)),
{
    let front = path.push(SLASH);
    assert(front.drop_last() == path);
    lemma_components_of_front(front);
    lemma_components_split(front, name, rest);
    assert(path + seq![0x2fu8] + name + rest == front + name + rest);
    assert(components(path) + seq![Component::Name(name)] + steps_behind(rest) == components(path)
        + (seq![Component::Name(name)] + steps_behind(rest)));
}

/// Slashes that follow a slash, and dots that stand alone behind one, add no component.
pub proof fn lemma_idle_parts(front: Seq<u8>, more: Seq<u8>)
    requires
        front.len() > 0,
        front.last() == 0x2f,
    ensures
        components(front + seq![0x2fu8] + more) == components(front + more),
        components(front + seq![0x2eu8, 0x2fu8] + more) == components(front + more),
{
    let f = front.drop_last();
    let none = Seq::<u8>::empty();
    let dot = seq![DOT];
    assert(front == f.push(SLASH));
    lemma_parts_join(f, more);
    assert(front + more == f.push(SLASH) + more);
    lemma_steps_join(parts(f), parts(more));
    lemma_parts_of_part(none);
    lemma_parts_of_part(dot);
    lemma_steps_one(none);
    lemma_steps_one(dot);
    lemma_parts_join(none, more);
    lemma_parts_join(dot, more);
    lemma_steps_join(seq![none], parts(more));
    lemma_steps_join(seq![dot], parts(more));
    let a = none.push(SLASH) + more;
    let b = dot.push(SLASH) + more;
    lemma_parts_join(f, a);
    lemma_parts_join(f, b);
    assert(front + seq![0x2fu8] + more == f.push(SLASH) + a);
    assert(front + seq![0x2eu8, 0x2fu8] + more == f.push(SLASH) + b);
    lemma_steps_join(parts(f), parts(a));
    lemma_steps_join(parts(f), parts(b));
    lemma_first_byte(f, SLASH);
    assert(parts(f).len() > 0);
    assert(parts(f.push(SLASH) + a).first() == parts(f).first());
    assert(parts(f.push(SLASH) + b).first() == parts(f).first());
    assert(parts(f.push(SLASH) + more).first() == parts(f).first());
    assert((f.push(SLASH) + a).first() == front.first());
    assert((f.push(SLASH) + b).first() == front.first());
    assert((f.push(SLASH) + more).first() == front.first());
}

/// Which component a path starts with: the root for a leading slash, the directory itself for
/// a leading dot alone, the parent for two dots, and otherwise the name.
pub proof fn lemma_first_component(path: Seq<u8>, first: Seq<u8>, rest: Seq<u8>)
    requires
        path == first + rest,
        is_rest(rest),
        forall|i: int| 0 <= i < first.len() ==> #[trigger] first[i] != 0x2f,
        path.len() > 0,
    ensures
        components(path).len() > 0,
        first.len() == 0 ==> components(path).first() == Component::Root,
        first == seq![0x2eu8] ==> components(path).first() == Component::Here,
        first == seq![0x2eu8, 0x2eu8] ==> components(path).first() == Component::Parent,
        is_plain(first) ==> components(path).first() == Component::Name(first),
{
    lemma_parts_of_part(first);
    lemma_steps_one(first);
    if rest.len() > 0 {
        let r = rest.drop_first();
        assert(path == first.push(SLASH) + r);
        lemma_parts_join(first, r);
        lemma_steps_join(seq![first], parts(r));
    } else {
        assert(path == first);
    }
    assert(parts(path).first() == first);
    if first.len() > 0 {
        assert(path.first() == first[0]);
        if first == seq![0x2eu8, 0x2eu8] {
            assert(first.len() == seq![0x2eu8, 0x2eu8].len());
            if first == seq![DOT] {
                assert(first.len() == seq![DOT].len());
            }
        }
    } else {
        assert(path.first() == SLASH);
        if first == seq![0x2eu8] {
            assert(first.len() == seq![0x2eu8].len());
        }
        if first == seq![0x2eu8, 0x2eu8] {
            assert(first.len() == seq![0x2eu8, 0x2eu8].len());
        }
    }
}

} // verus!
