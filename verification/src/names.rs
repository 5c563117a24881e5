//! Paths and file names as the bytes the system holds them in.

use vstd::prelude::*;
use vstd::string::*;
use vstd::utf8::*;

use crate::sort::{
    arranged, law_arranging_keeps_values, lemma_order_lists_places, precedes, sort_places,
    stable_order, Ordered,
};
use crate::text::ascii;

verus! {

/// A path or a file name, as bytes.
#[derive(Debug)]
pub struct PathName {
    pub bytes: Vec<u8>,
}

impl View for PathName {
    type V = Seq<u8>;

    open spec fn view(&self) -> Seq<u8> {
        self.bytes@
    }
}

/// The views of several names.
pub open spec fn views(names: Seq<PathName>) -> Seq<Seq<u8>> {
    Seq::new(names.len(), |i: int| names[i]@)
}

/// A copy of some bytes.
fn copied(bytes: &Vec<u8>) -> (copy: Vec<u8>)
    ensures
        copy@ == bytes@,
{
    let mut copy: Vec<u8> = Vec::new();
    copy.extend_from_slice(bytes.as_slice());
    assert(copy@ =~= bytes@);
    copy
}

impl Clone for PathName {
    fn clone(&self) -> (copy: Self)
        ensures
            copy@ == self@,
    {
        PathName { bytes: copied(&self.bytes) }
    }
}

impl PathName {
    /// The name with the given bytes.
    pub fn from_bytes(bytes: &Vec<u8>) -> (name: PathName)
        ensures
            name@ == bytes@,
    {
        PathName { bytes: copied(bytes) }
    }

    /// The name with the given text.
    pub fn from_text(text: &str) -> (name: PathName)
        ensures
            name@ == encode_utf8(text@),
    {
        let mut bytes: Vec<u8> = Vec::new();
        bytes.extend_from_slice(text.as_bytes());
        assert(bytes@ =~= encode_utf8(text@));
        PathName { bytes }
    }

    /// Whether two names have the same bytes.
    pub fn same_as(&self, other: &PathName) -> (same: bool)
        ensures
            same == (self@ == other@),
    {
        if self.bytes.len() != other.bytes.len() {
            return false;
        }
        let mut i: usize = 0;
        while i < self.bytes.len()
            invariant
                i <= self@.len(),
                self@.len() == other@.len(),
                forall|j: int| 0 <= j < i ==> self@[j] == other@[j],
            decreases self.bytes.len() - i,
        {
            if self.bytes[i] != other.bytes[i] {
                return false;
            }
            i = i + 1;
        }
        assert(self@ =~= other@);
        true
    }
}

/// How many bytes come before the first slash.
pub open spec fn piece_len(path: Seq<u8>) -> nat
    decreases path.len(),
{
    if path.len() == 0 || path.first() == 0x2f {
        0
    } else {
        1 + piece_len(path.drop_first())
    }
}

/// What stands between the slashes of a path, one after the other, without
/// what is empty or a single dot.
pub open spec fn pieces(path: Seq<u8>) -> Seq<Seq<u8>>
    decreases path.len(),
{
    let n = piece_len(path);
    let rest = if n < path.len() {
        pieces(path.skip(n as int + 1))
    } else {
        Seq::empty()
    };
    if n == 0 || path.take(n as int) == seq![0x2eu8] {
        rest
    } else {
        seq![path.take(n as int)] + rest
    }
}

/// The components of a path: whether it begins at the root, whether it begins
/// with a single dot, and the pieces.
pub open spec fn components(path: Seq<u8>) -> (bool, bool, Seq<Seq<u8>>) {
    (
        path.len() > 0 && path[0] == 0x2f,
        piece_len(path) == 1 && path[0] == 0x2e,
        pieces(path),
    )
}

proof fn lemma_piece_len(path: Seq<u8>, n: int)
    requires
        0 <= n <= path.len(),
        forall|i: int| 0 <= i < n ==> path[i] != 0x2f,
        n == path.len() || path[n] == 0x2f,
    ensures
        piece_len(path) == n,
    decreases n,
{
    if n > 0 {
        lemma_piece_len(path.drop_first(), n - 1);
    }
}

proof fn lemma_piece_len_is_first_slash(path: Seq<u8>)
    ensures
        piece_len(path) <= path.len(),
        forall|i: int| 0 <= i < piece_len(path) ==> path[i] != 0x2f,
        piece_len(path) < path.len() ==> path[piece_len(path) as int] == 0x2f,
    decreases path.len(),
{
    if path.len() > 0 && path.first() != 0x2f {
        let rest = path.drop_first();
        lemma_piece_len_is_first_slash(rest);
        assert forall|i: int| 0 <= i < piece_len(path) implies path[i] != 0x2f by {
            if i > 0 {
                assert(path[i] == rest[i - 1]);
            }
        }
        if piece_len(path) < path.len() {
            assert(path[piece_len(path) as int] == rest[piece_len(rest) as int]);
        }
    }
}

/// The pieces of two paths joined by a slash are those of the one and those of
/// the other. So further slashes and single dots between them make no
/// difference, nor does a slash at the end.
pub proof fn law_pieces_of_joined_paths(a: Seq<u8>, b: Seq<u8>)
    ensures
        pieces(a.push(0x2f) + b) == pieces(a) + pieces(b),
    decreases a.len(),
{
    let joined = a.push(0x2f) + b;
    let n = piece_len(a) as int;
    lemma_piece_len_is_first_slash(a);
    assert forall|i: int| 0 <= i < n implies joined[i] != 0x2f by {
        assert(joined[i] == a[i]);
    }
    lemma_piece_len(joined, n);
    assert(joined.take(n) =~= a.take(n));
    if n < a.len() {
        law_pieces_of_joined_paths(a.skip(n + 1), b);
        assert(joined.skip(n + 1) =~= a.skip(n + 1).push(0x2f) + b);
    } else {
        assert(joined.skip(n + 1) =~= b);
    }
    assert(pieces(joined) =~= pieces(a) + pieces(b));
}

impl PathName {
    /// Where the first slash from `from` on is, or the end.
    fn piece_end(&self, from: usize) -> (end: usize)
        requires
            from <= self@.len(),
        ensures
            from <= end <= self@.len(),
            end == from + piece_len(self@.skip(from as int)),
    {
        let mut end: usize = from;
        while end < self.bytes.len() && self.bytes[end] != 0x2f
            invariant
                from <= end <= self@.len(),
                forall|i: int| from <= i < end ==> self@[i] != 0x2f,
            decreases self.bytes.len() - end,
        {
            end = end + 1;
        }
        proof {
            lemma_piece_len(self@.skip(from as int), end - from);
        }
        end
    }

    /// What stands between the slashes, without what is empty or a single dot.
    fn pieces(&self) -> (found: Vec<PathName>)
        ensures
            views(found@) == pieces(self@),
    {
        let mut found: Vec<PathName> = Vec::new();
        let mut at: usize = 0;
        assert(self@.skip(0) =~= self@);
        assert(views(found@) + pieces(self@) =~= pieces(self@));
        loop
            invariant_except_break
                at <= self@.len(),
                views(found@) + pieces(self@.skip(at as int)) == pieces(self@),
            ensures
                views(found@) == pieces(self@),
            decreases self@.len() - at,
        {
            let end: usize = self.piece_end(at);
            let ghost left = self@.skip(at as int);
            let ghost piece = self@.subrange(at as int, end as int);
            let ghost before = views(found@);
            assert(left.take(end - at) =~= piece);
            let dot = end - at == 1 && self.bytes[at] == 0x2e;
            assert(dot == (piece =~= seq![0x2eu8]));
            if end > at && !dot {
                let mut bytes: Vec<u8> = Vec::new();
                let mut i: usize = at;
                while i < end
                    invariant
                        at <= i <= end <= self@.len(),
                        bytes@ == self@.subrange(at as int, i as int),
                    decreases end - i,
                {
                    bytes.push(self.bytes[i]);
                    i = i + 1;
                    assert(bytes@ =~= self@.subrange(at as int, i as int));
                }
                found.push(PathName { bytes });
                assert(views(found@) =~= before.push(piece));
            }
            if end == self.bytes.len() {
                assert(views(found@) =~= pieces(self@));
                break;
            }
            assert(left.skip(end - at + 1) =~= self@.skip(end + 1));
            assert(views(found@) + pieces(self@.skip(end + 1)) =~= before + pieces(left));
            at = end + 1;
        }
        found
    }

    /// Whether two paths have the same components: neither repeated slashes,
    /// nor one at the end, nor single dots after the beginning count.
    pub fn same_path(&self, other: &PathName) -> (same: bool)
        ensures
            same == (components(self@) == components(other@)),
    {
        let rooted = self.bytes.len() > 0 && self.bytes[0] == 0x2f;
        let other_rooted = other.bytes.len() > 0 && other.bytes[0] == 0x2f;
        assert(self@.skip(0) =~= self@ && other@.skip(0) =~= other@);
        let here = self.piece_end(0) == 1 && self.bytes[0] == 0x2e;
        let other_here = other.piece_end(0) == 1 && other.bytes[0] == 0x2e;
        if rooted != other_rooted || here != other_here {
            return false;
        }
        let mine = self.pieces();
        let theirs = other.pieces();
        assert(views(mine@).len() == mine@.len() && views(theirs@).len() == theirs@.len());
        if mine.len() != theirs.len() {
            return false;
        }
        let mut i: usize = 0;
        while i < mine.len()
            invariant
                i <= mine@.len(),
                mine@.len() == theirs@.len(),
                views(mine@) == pieces(self@),
                views(theirs@) == pieces(other@),
                forall|j: int| 0 <= j < i ==> views(mine@)[j] == views(theirs@)[j],
            decreases mine.len() - i,
        {
            if !mine[i].same_as(&theirs[i]) {
                assert(views(mine@)[i as int] != views(theirs@)[i as int]);
                return false;
            }
            i = i + 1;
        }
        assert(views(mine@) =~= views(theirs@));
        true
    }
}

/// `a` does not come after `b` in byte order: at the first difference `a` has
/// the smaller byte, or `a` is the beginning of `b`.
pub open spec fn bytes_at_most(a: Seq<u8>, b: Seq<u8>) -> bool
    decreases a.len(),
{
    if a.len() == 0 {
        true
    } else if b.len() == 0 {
        false
    } else if a.first() != b.first() {
        a.first() < b.first()
    } else {
        bytes_at_most(a.drop_first(), b.drop_first())
    }
}

proof fn lemma_bytes_total(a: Seq<u8>, b: Seq<u8>)
    ensures
        bytes_at_most(a, b) || bytes_at_most(b, a),
    decreases a.len(),
{
    if a.len() > 0 && b.len() > 0 && a.first() == b.first() {
        lemma_bytes_total(a.drop_first(), b.drop_first());
    }
}

proof fn lemma_bytes_transitive(a: Seq<u8>, b: Seq<u8>, c: Seq<u8>)
    requires
        bytes_at_most(a, b),
        bytes_at_most(b, c),
    ensures
        bytes_at_most(a, c),
    decreases a.len(),
{
    if a.len() > 0 && b.len() > 0 && c.len() > 0 && a.first() == b.first() && b.first()
        == c.first() {
        lemma_bytes_transitive(a.drop_first(), b.drop_first(), c.drop_first());
    }
}

/// Names that do not come after each other are the same.
pub proof fn law_byte_order_tells_names_apart(a: Seq<u8>, b: Seq<u8>)
    requires
        bytes_at_most(a, b),
        bytes_at_most(b, a),
    ensures
        a == b,
    decreases a.len(),
{
    if a.len() > 0 && b.len() > 0 {
        law_byte_order_tells_names_apart(a.drop_first(), b.drop_first());
        assert(a =~= seq![a.first()] + a.drop_first());
        assert(b =~= seq![b.first()] + b.drop_first());
    } else {
        assert(a =~= b);
    }
}

impl Ordered for PathName {
    open spec fn at_most(&self, other: &Self) -> bool {
        bytes_at_most(self@, other@)
    }

    proof fn order_is_total(a: &Self, b: &Self) {
        lemma_bytes_total(a@, b@);
    }

    proof fn order_is_transitive(a: &Self, b: &Self, c: &Self) {
        lemma_bytes_transitive(a@, b@, c@);
    }

    fn is_at_most(&self, other: &Self) -> (r: bool) {
        let mut i: usize = 0;
        assert(self@.skip(0) =~= self@);
        assert(other@.skip(0) =~= other@);
        while i < self.bytes.len()
            invariant
                i <= self@.len(),
                i <= other@.len(),
                bytes_at_most(self@, other@) == bytes_at_most(
                    self@.skip(i as int),
                    other@.skip(i as int),
                ),
            decreases self.bytes.len() - i,
        {
            if i == other.bytes.len() {
                return false;
            }
            if self.bytes[i] != other.bytes[i] {
                return self.bytes[i] < other.bytes[i];
            }
            assert(self@.skip(i as int).drop_first() =~= self@.skip(i + 1));
            assert(other@.skip(i as int).drop_first() =~= other@.skip(i + 1));
            i = i + 1;
        }
        true
    }
}

/// The names are in byte order.
pub open spec fn in_name_order(names: Seq<Seq<u8>>) -> bool {
    forall|i: int, j: int| 0 <= i < j < names.len() ==> bytes_at_most(names[i], names[j])
}

/// The names that are chosen, in their order.
pub open spec fn chosen(names: Seq<Seq<u8>>, choice: spec_fn(int) -> bool) -> Seq<Seq<u8>>
    decreases names.len(),
{
    if names.len() == 0 {
        Seq::empty()
    } else {
        let rest = chosen(names.drop_last(), choice);
        if choice(names.len() - 1) {
            rest.push(names.last())
        } else {
            rest
        }
    }
}

/// There is one way to put names in order: two lists of the same names, both in
/// byte order, are the same list.
pub proof fn law_name_order_is_unique(a: Seq<Seq<u8>>, b: Seq<Seq<u8>>)
    requires
        in_name_order(a),
        in_name_order(b),
        a.to_multiset() == b.to_multiset(),
    ensures
        a == b,
{
    let leq = |x: Seq<u8>, y: Seq<u8>| bytes_at_most(x, y);
    assert forall|x: Seq<u8>| #[trigger] leq(x, x) by {
        lemma_bytes_total(x, x);
    }
    assert forall|x: Seq<u8>, y: Seq<u8>| #[trigger] leq(x, y) && #[trigger] leq(y, x) implies x
        == y by {
        law_byte_order_tells_names_apart(x, y);
    }
    assert forall|x: Seq<u8>, y: Seq<u8>, z: Seq<u8>| #[trigger] leq(x, y) && #[trigger] leq(
        y,
        z,
    ) implies leq(x, z) by {
        lemma_bytes_transitive(x, y, z);
    }
    assert forall|x: Seq<u8>, y: Seq<u8>| #[trigger] leq(x, y) || #[trigger] leq(y, x) by {
        lemma_bytes_total(x, y);
    }
    vstd::seq_lib::lemma_sorted_unique(a, b, leq);
}

/// The names in byte order.
pub fn sort_names(names: &Vec<PathName>) -> (sorted: Vec<PathName>)
    ensures
        in_name_order(views(sorted@)),
        views(sorted@).to_multiset() == views(names@).to_multiset(),
{
    let order = sort_places(names);
    let mut sorted: Vec<PathName> = Vec::new();
    let mut i: usize = 0;
    while i < order.len()
        invariant
            i <= order@.len(),
            stable_order(names@, order@),
            sorted@.len() == i,
            forall|k: int| 0 <= k < i ==> (#[trigger] sorted@[k])@ == names@[order@[k] as int]@,
        decreases order.len() - i,
    {
        sorted.push(names[order[i]].clone());
        i = i + 1;
    }
    proof {
        lemma_order_lists_places(names@, order@);
        law_arranging_keeps_values(views(names@), order@);
        assert(views(sorted@) =~= arranged(views(names@), order@));
        assert forall|a: int, b: int| 0 <= a < b < sorted@.len() implies bytes_at_most(
            views(sorted@)[a],
            views(sorted@)[b],
        ) by {
            assert(precedes(names@, order@[a] as int, order@[b] as int));
        }
    }
    sorted
}

/// Where the last dot is, or -1.
pub open spec fn last_dot(name: Seq<u8>) -> int
    decreases name.len(),
{
    if name.len() == 0 {
        -1
    } else if name.last() == 0x2e {
        name.len() - 1
    } else {
        last_dot(name.drop_last())
    }
}

/// The name has an extension: it holds a dot that is not its first byte, and
/// is not `..`.
pub open spec fn has_extension(name: Seq<u8>) -> bool {
    last_dot(name) > 0 && name != seq![0x2eu8, 0x2eu8]
}

/// What follows the last dot of the name, where it has an extension.
pub open spec fn extension(name: Seq<u8>) -> Option<Seq<u8>> {
    if has_extension(name) {
        Some(name.skip(last_dot(name) + 1))
    } else {
        None
    }
}

/// The name without its extension.
pub open spec fn stem(name: Seq<u8>) -> Seq<u8> {
    if has_extension(name) {
        name.take(last_dot(name))
    } else {
        name
    }
}

/// The name with its extension replaced, or with one added.
pub open spec fn with_extension(name: Seq<u8>, ext: Seq<u8>) -> Seq<u8> {
    stem(name).push(0x2e) + ext
}

/// An ASCII capital letter as the small letter; every other byte as it is.
pub open spec fn lower(b: u8) -> u8 {
    if 0x41 <= b <= 0x5a {
        (b + 0x20) as u8
    } else {
        b
    }
}

/// The bytes with ASCII capital letters made small.
pub open spec fn lowered(bytes: Seq<u8>) -> Seq<u8> {
    Seq::new(bytes.len(), |i: int| lower(bytes[i]))
}

/// The extension is `ext` but for the case of ASCII letters.
pub open spec fn extension_is(name: Seq<u8>, ext: Seq<char>) -> bool {
    extension(name) matches Some(e) && lowered(e) == ascii(ext)
}

impl PathName {
    /// Where the last dot is, plus one; zero without a dot.
    fn after_last_dot(&self) -> (at: usize)
        ensures
            at == last_dot(self@) + 1,
            at <= self@.len(),
    {
        let mut at: usize = self.bytes.len();
        assert(self@.take(at as int) =~= self@);
        while at > 0 && self.bytes[at - 1] != 0x2e
            invariant
                at <= self@.len(),
                last_dot(self@) == last_dot(self@.take(at as int)),
            decreases at,
        {
            assert(self@.take(at as int).drop_last() =~= self@.take(at - 1));
            at = at - 1;
        }
        at
    }

    /// Whether the name is `..`.
    fn is_parent(&self) -> (r: bool)
        ensures
            r == (self@ == seq![0x2eu8, 0x2eu8]),
    {
        let r = self.bytes.len() == 2 && self.bytes[0] == 0x2e && self.bytes[1] == 0x2e;
        assert(r ==> self@ =~= seq![0x2eu8, 0x2eu8]);
        r
    }

    /// Whether the name has an extension.
    pub fn has_extension(&self) -> (has: bool)
        ensures
            has == has_extension(self@),
    {
        self.after_last_dot() > 1 && !self.is_parent()
    }

    /// Whether the extension is `ext`, a text of small ASCII letters and
    /// digits, but for the case of ASCII letters.
    pub fn extension_is(&self, ext: &str) -> (r: bool)
        requires
            is_ascii_chars(ext@),
        ensures
            r == extension_is(self@, ext@),
    {
        if !self.has_extension() {
            return false;
        }
        let at: usize = self.after_last_dot();
        let wanted = ext.as_bytes();
        proof {
            is_ascii_chars_encode_utf8(ext@);
            assert(wanted@ =~= ascii(ext@));
        }
        let ghost found = extension(self@)->Some_0;
        if self.bytes.len() - at != wanted.len() {
            assert(lowered(found).len() != ascii(ext@).len());
            return false;
        }
        let mut i: usize = 0;
        while i < wanted.len()
            invariant
                i <= wanted@.len(),
                at + wanted@.len() == self@.len(),
                self@.len() == self.bytes.len(),
                extension(self@) == Some(found),
                found == self@.skip(at as int),
                wanted@ == ascii(ext@),
                forall|j: int| 0 <= j < i ==> lowered(found)[j] == wanted@[j],
            decreases wanted.len() - i,
        {
            let b: u8 = self.bytes[at + i];
            let small: u8 = if 0x41 <= b && b <= 0x5a {
                b + 0x20
            } else {
                b
            };
            assert(lowered(found)[i as int] == small);
            if small != wanted[i] {
                return false;
            }
            i = i + 1;
        }
        assert(lowered(found) =~= ascii(ext@));
        true
    }

    /// The name with its extension replaced, or with one added.
    pub fn with_extension(&self, ext: &str) -> (name: PathName)
        requires
            is_ascii_chars(ext@),
        ensures
            name@ == with_extension(self@, ascii(ext@)),
    {
        let keep: usize = if self.has_extension() {
            self.after_last_dot() - 1
        } else {
            self.bytes.len()
        };
        let mut bytes: Vec<u8> = Vec::new();
        let mut i: usize = 0;
        while i < keep
            invariant
                i <= keep <= self@.len(),
                bytes@ == self@.take(i as int),
            decreases keep - i,
        {
            bytes.push(self.bytes[i]);
            i = i + 1;
            assert(bytes@ =~= self@.take(i as int));
        }
        assert(bytes@ =~= stem(self@));
        bytes.push(0x2e);
        let ext_bytes = ext.as_bytes();
        proof {
            is_ascii_chars_encode_utf8(ext@);
            assert(ext_bytes@ =~= ascii(ext@));
        }
        bytes.extend_from_slice(ext_bytes);
        assert(bytes@ =~= with_extension(self@, ascii(ext@)));
        PathName { bytes }
    }
}

proof fn lemma_last_dot(name: Seq<u8>, at: int)
    requires
        0 <= at < name.len(),
        name[at] == 0x2e,
        forall|i: int| at < i < name.len() ==> name[i] != 0x2e,
    ensures
        last_dot(name) == at,
    decreases name.len(),
{
    if at < name.len() - 1 {
        lemma_last_dot(name.drop_last(), at);
    }
}

/// A name that was given an extension without a dot has that extension, if
/// something stands before it.
pub proof fn law_with_extension(name: Seq<u8>, ext: Seq<u8>)
    requires
        stem(name).len() > 0,
        ext.len() > 0,
        forall|i: int| 0 <= i < ext.len() ==> ext[i] != 0x2e,
    ensures
        extension(with_extension(name, ext)) == Some(ext),
        stem(with_extension(name, ext)) == stem(name),
{
    let full = with_extension(name, ext);
    let at = stem(name).len() as int;
    assert forall|i: int| at < i < full.len() implies full[i] != 0x2e by {
        assert(full[i] == ext[i - at - 1]);
    }
    lemma_last_dot(full, at);
    assert(full.last() == ext.last());
    assert(full.last() != 0x2e);
    assert(full.skip(at + 1) =~= ext);
    assert(full.take(at) =~= stem(name));
}

/// Byte order is decided at the first difference: the smaller byte comes first,
/// and the beginning of a name comes before the name.
pub proof fn law_first_difference_decides(a: Seq<u8>, b: Seq<u8>, n: int)
    requires
        0 <= n <= a.len(),
        n <= b.len(),
        a.take(n) == b.take(n),
        n == a.len() || (n < b.len() && a[n] < b[n]),
    ensures
        bytes_at_most(a, b),
        a.len() < b.len() || n < a.len() ==> !bytes_at_most(b, a),
    decreases n,
{
    if n > 0 {
        let x = a.drop_first();
        let y = b.drop_first();
        assert(a[0] == a.take(n)[0] && b[0] == b.take(n)[0]);
        assert(x.take(n - 1) =~= y.take(n - 1)) by {
            assert forall|i: int| 0 <= i < n - 1 implies x[i] == y[i] by {
                assert(a.take(n)[i + 1] == a[i + 1]);
                assert(b.take(n)[i + 1] == b[i + 1]);
            }
        }
        law_first_difference_decides(x, y, n - 1);
    }
}

/// Names are in byte order exactly if each is at most the next by its first
/// difference from it: two names that stand in order are never the other way
/// round.
pub proof fn law_name_order_is_by_bytes(names: Seq<Seq<u8>>, i: int, j: int, n: int)
    requires
        in_name_order(names),
        0 <= i < j < names.len(),
        0 <= n <= names[i].len(),
        n <= names[j].len(),
        names[i].take(n) == names[j].take(n),
    ensures
        n < names[i].len() && n < names[j].len() ==> names[i][n] <= names[j][n],
        n == names[j].len() ==> n == names[i].len(),
{
    let a = names[i];
    let b = names[j];
    assert(bytes_at_most(a, b));
    if n < a.len() && n < b.len() && a[n] > b[n] {
        law_first_difference_decides(b, a, n);
    }
    if n == b.len() && n < a.len() {
        law_first_difference_decides(b, a, n);
    }
}

/// The names that are chosen are exactly those at the chosen places, as often
/// as they stand there.
pub proof fn law_chosen_names(names: Seq<Seq<u8>>, choice: spec_fn(int) -> bool, name: Seq<u8>)
    ensures
        chosen(names, choice).len() <= names.len(),
        chosen(names, choice).contains(name) <==> exists|i: int|
            0 <= i < names.len() && #[trigger] names[i] == name && choice(i),
        (forall|i: int| 0 <= i < names.len() ==> #[trigger] choice(i)) ==> chosen(names, choice)
            == names,
        chosen(names, choice).to_multiset().count(name) == Seq::new(
            names.len(),
            |i: int| names[i] == name && choice(i),
        ).to_multiset().count(true),
    decreases names.len(),
{
    broadcast use vstd::seq_lib::group_to_multiset_ensures;

    let marks = Seq::new(names.len(), |i: int| names[i] == name && choice(i));
    if names.len() > 0 {
        let rest = names.drop_last();
        let last = names.len() - 1;
        law_chosen_names(rest, choice, name);
        let rest_marks = Seq::new(rest.len(), |i: int| rest[i] == name && choice(i));
        assert(marks =~= rest_marks.push(names[last] == name && choice(last)));
        let found = chosen(names, choice);
        let before = chosen(rest, choice);
        if found.contains(name) {
            let k = choose|k: int| 0 <= k < found.len() && found[k] == name;
            if k < before.len() {
                assert(before[k] == name);
                assert(before.contains(name));
                let i = choose|i: int|
                    0 <= i < rest.len() && #[trigger] rest[i] == name && choice(i);
                assert(names[i] == name && choice(i));
            } else {
                assert(names[last] == name && choice(last));
            }
        }
        if exists|i: int| 0 <= i < names.len() && #[trigger] names[i] == name && choice(i) {
            let i = choose|i: int| 0 <= i < names.len() && #[trigger] names[i] == name && choice(i);
            if i < last {
                assert(rest[i] == name);
                assert(before.contains(name));
                let k = choose|k: int| 0 <= k < before.len() && before[k] == name;
                assert(found[k] == name);
            } else {
                assert(found[found.len() - 1] == name);
            }
        }
        if forall|i: int| 0 <= i < names.len() ==> #[trigger] choice(i) {
            assert forall|i: int| 0 <= i < rest.len() implies #[trigger] choice(i) by {}
            assert(choice(last));
            assert(rest.push(names[last]) =~= names);
        }
    } else {
        assert(chosen(names, choice) =~= names);
        assert(marks =~= Seq::<bool>::empty());
        assert(chosen(names, choice).to_multiset().count(name) == 0);
        assert(marks.to_multiset().count(true) == 0);
    }
}

/// What follows the last dot is the extension, if something stands before the
/// dot; what stands before it is the stem.
pub proof fn law_extension_after_last_dot(before: Seq<u8>, ext: Seq<u8>)
    requires
        before.len() > 0,
        forall|i: int| 0 <= i < ext.len() ==> #[trigger] ext[i] != 0x2e,
        before != seq![0x2eu8] || ext.len() > 0,
    ensures
        extension(before.push(0x2e) + ext) == Some(ext),
        stem(before.push(0x2e) + ext) == before,
        has_extension(before.push(0x2e) + ext),
{
    let full = before.push(0x2e) + ext;
    let at = before.len() as int;
    assert forall|i: int| at < i < full.len() implies full[i] != 0x2e by {
        assert(full[i] == ext[i - at - 1]);
    }
    lemma_last_dot(full, at);
    assert(full.skip(at + 1) =~= ext);
    assert(full.take(at) =~= before);
    if full == seq![0x2eu8, 0x2eu8] {
        assert(before =~= seq![0x2eu8]) by {
            assert(full[0] == before[0]);
        }
        assert(ext.len() == 0);
    }
}

/// A name without a dot, one whose only dot comes first, and `..` have no
/// extension.
pub proof fn law_no_extension(name: Seq<u8>)
    requires
        (forall|i: int| 0 < i < name.len() ==> #[trigger] name[i] != 0x2e) || name == seq![
            0x2eu8,
            0x2eu8,
        ],
    ensures
        extension(name) is None,
        !has_extension(name),
        stem(name) == name,
        forall|ext: Seq<u8>| #[trigger] with_extension(name, ext) == name.push(0x2e) + ext,
{
    lemma_no_late_dot(name);
}

proof fn lemma_no_late_dot(name: Seq<u8>)
    ensures
        -1 <= last_dot(name) < name.len(),
        last_dot(name) >= 0 ==> name[last_dot(name)] == 0x2e,
    decreases name.len(),
{
    if name.len() > 0 && name.last() != 0x2e {
        lemma_no_late_dot(name.drop_last());
    }
}

/// Giving a name another extension changes what follows its last dot and
/// nothing else.
pub proof fn law_extension_is_replaced(before: Seq<u8>, old_ext: Seq<u8>, new_ext: Seq<u8>)
    requires
        before.len() > 0,
        forall|i: int| 0 <= i < old_ext.len() ==> #[trigger] old_ext[i] != 0x2e,
        before != seq![0x2eu8] || old_ext.len() > 0,
    ensures
        with_extension(before.push(0x2e) + old_ext, new_ext) == before.push(0x2e) + new_ext,
{
    law_extension_after_last_dot(before, old_ext);
}

/// An extension is recognised but for the case of ASCII letters: byte by byte
/// it is the letter or its capital.
pub proof fn law_extension_in_any_case(before: Seq<u8>, found: Seq<u8>, ext: Seq<char>)
    requires
        before.len() > 0,
        forall|i: int| 0 <= i < found.len() ==> #[trigger] found[i] != 0x2e,
        before != seq![0x2eu8] || found.len() > 0,
        forall|i: int|
            0 <= i < ext.len() ==> ('a' <= #[trigger] ext[i] && ext[i] <= 'z') || ('0' <= ext[i]
                && ext[i] <= '9'),
    ensures
        extension_is(before.push(0x2e) + found, ext) <==> (found.len() == ext.len() && forall|
            i: int,
        |
            0 <= i < ext.len() ==> found[i] == #[trigger] ext[i] as int || (ext[i] >= 'a'
                && found[i] + 0x20 == ext[i] as int)),
{
    law_extension_after_last_dot(before, found);
    let name = before.push(0x2e) + found;
    if extension_is(name, ext) {
        assert(lowered(found).len() == ascii(ext).len());
        assert forall|i: int| 0 <= i < ext.len() implies found[i] == #[trigger] ext[i] as int || (
        ext[i] >= 'a' && found[i] + 0x20 == ext[i] as int) by {
            assert(lowered(found)[i] == ascii(ext)[i]);
            assert(ext[i] as u8 == ext[i] as int);
        }
    }
    if found.len() == ext.len() && forall|i: int|
        0 <= i < ext.len() ==> found[i] == #[trigger] ext[i] as int || (ext[i] >= 'a' && found[i]
            + 0x20 == ext[i] as int) {
        assert forall|i: int| 0 <= i < ext.len() implies lowered(found)[i] == ascii(ext)[i] by {
            assert(found[i] == ext[i] as int || (ext[i] >= 'a' && found[i] + 0x20
                == ext[i] as int));
            assert(ext[i] as u8 == ext[i] as int);
        }
        assert(lowered(found) =~= ascii(ext));
    }
}

/// A path of one piece: the piece itself, unless it is empty or a single dot.
pub proof fn law_pieces_of_a_name(name: Seq<u8>)
    requires
        forall|i: int| 0 <= i < name.len() ==> #[trigger] name[i] != 0x2f,
    ensures
        pieces(name) == if name.len() == 0 || name == seq![0x2eu8] {
            Seq::empty()
        } else {
            seq![name]
        },
{
    lemma_piece_len(name, name.len() as int);
    assert(name.take(name.len() as int) =~= name);
    assert(seq![name] + Seq::<Seq<u8>>::empty() =~= seq![name]);
}

/// What is compared of a path besides its pieces: whether it begins with a slash,
/// and whether it is a single dot or begins with one and a slash.
pub proof fn law_beginnings_of_paths(path: Seq<u8>)
    ensures
        components(path).0 <==> path.len() > 0 && path[0] == 0x2f,
        components(path).1 <==> path.len() > 0 && path[0] == 0x2e && (path.len() == 1 || path[1]
            == 0x2f),
        components(path).2 == pieces(path),
{
    if path.len() > 0 && path[0] == 0x2e && (path.len() == 1 || path[1] == 0x2f) {
        lemma_piece_len(path, 1);
    }
    lemma_piece_len_is_first_slash(path);
}

} // verus!
