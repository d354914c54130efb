//! Host paths as byte strings, with the component rules of Unix paths:
//! repeated separators and `.` components after the first do not count.
use vstd::prelude::*;
use vstd::utf8::*;

verus! {

/// The path separator.
pub const SLASH: u8 = 0x2f;

/// The byte of a full stop.
pub const DOT: u8 = 0x2e;

/// A path of the host, as the bytes the system uses for it.
#[derive(Debug, PartialEq, Eq)]
pub struct HostPath {
    pub bytes: Vec<u8>,
}

impl View for HostPath {
    type V = Seq<u8>;

    open spec fn view(&self) -> Seq<u8> {
        self.bytes@
    }
}

/// The text that stands for bytes which may not be UTF-8.
pub uninterp spec fn lossy_text(bytes: Seq<u8>) -> Seq<char>;

/// `String::from_utf8_lossy` of std: the text of the bytes, with replacement
/// characters where they are not UTF-8. Bytes that are UTF-8 come back as the
/// characters they encode, and a slash comes from a slash only.
#[verifier::external_body]
pub(crate) fn from_utf8_lossy(bytes: &[u8]) -> (r: String)
    ensures
        r@ == lossy_text(bytes@),
        valid_utf8(bytes@) ==> r@ == decode_utf8(bytes@),
        r@.contains('/') ==> bytes@.contains(SLASH),
{
    String::from_utf8_lossy(bytes).into_owned()
}

/// A path without trailing separators and trailing `.` components. The root
/// and a lone leading `.` stay.
pub open spec fn stem(p: Seq<u8>) -> Seq<u8>
    decreases p.len(),
{
    if p.len() >= 2 && (p.last() == SLASH || (p.last() == DOT && p[p.len() - 2] == SLASH)) {
        stem(p.drop_last())
    } else {
        p
    }
}

/// Where the last component of a path without trailing separators begins.
pub open spec fn last_start(p: Seq<u8>) -> int
    decreases p.len(),
{
    if p.len() == 0 || p.last() == SLASH {
        p.len() as int
    } else {
        last_start(p.drop_last())
    }
}

/// The last component of a path, if it is a name: not the root, not `..` and
/// not a lone `.`.
pub open spec fn file_name_of(p: Seq<u8>) -> Option<Seq<u8>> {
    let s = stem(p);
    let name = s.skip(last_start(s));
    if name.len() == 0 || name == seq![DOT] || name == seq![DOT, DOT] {
        None
    } else {
        Some(name)
    }
}

/// The path without its last component; nothing above the root or the empty
/// path.
pub open spec fn parent_of(p: Seq<u8>) -> Option<Seq<u8>> {
    let s = stem(p);
    let start = last_start(s);
    if start == s.len() {
        None
    } else {
        Some(stem(s.take(start)))
    }
}

/// A path extended by another one; an absolute one takes its place.
pub open spec fn joined(base: Seq<u8>, tail: Seq<u8>) -> Seq<u8> {
    if tail.len() > 0 && tail[0] == SLASH {
        tail
    } else if base.len() == 0 || base.last() == SLASH {
        base + tail
    } else {
        base.push(SLASH) + tail
    }
}

pub proof fn lemma_last_start_bounds(p: Seq<u8>)
    ensures
        0 <= last_start(p) <= p.len(),
        last_start(p) == p.len() <==> p.len() == 0 || p.last() == SLASH,
    decreases p.len(),
{
    if p.len() == 0 || p.last() == SLASH {
    } else {
        lemma_last_start_bounds(p.drop_last());
    }
}

/// Bytes `from..to` of a slice, as a vector.
pub fn copy_range(bytes: &[u8], from: usize, to: usize) -> (r: Vec<u8>)
    requires
        from <= to <= bytes@.len(),
    ensures
        r@ == bytes@.subrange(from as int, to as int),
{
    let mut out: Vec<u8> = Vec::new();
    let mut i: usize = from;
    while i < to
        invariant
            from <= i <= to <= bytes@.len(),
            out@ == bytes@.subrange(from as int, i as int),
        decreases to - i,
    {
        out.push(bytes[i]);
        i += 1;
        assert(bytes@.subrange(from as int, i as int) =~= bytes@.subrange(
            from as int,
            i - 1,
        ).push(bytes@[i - 1]));
    }
    out
}

/// Length of the part of `bytes[..len]` that `stem` keeps.
fn stem_len(bytes: &[u8], len: usize) -> (r: usize)
    requires
        len <= bytes@.len(),
    ensures
        r <= len,
        bytes@.take(r as int) == stem(bytes@.take(len as int)),
    decreases len,
{
    if len >= 2 && (bytes[len - 1] == SLASH || (bytes[len - 1] == DOT && bytes[len - 2] == SLASH)) {
        assert(bytes@.take(len as int).drop_last() =~= bytes@.take(len - 1));
        stem_len(bytes, len - 1)
    } else {
        len
    }
}

/// Where the last component of `bytes[..len]` begins.
fn last_start_at(bytes: &[u8], len: usize) -> (r: usize)
    requires
        len <= bytes@.len(),
    ensures
        r <= len,
        r == last_start(bytes@.take(len as int)),
    decreases len,
{
    if len == 0 || bytes[len - 1] == SLASH {
        len
    } else {
        assert(bytes@.take(len as int).drop_last() =~= bytes@.take(len - 1));
        last_start_at(bytes, len - 1)
    }
}

impl HostPath {
    /// The path a text names.
    pub fn from_text(text: &str) -> (r: HostPath)
        ensures
            r@ == encode_utf8(text@),
    {
        HostPath { bytes: text.as_bytes_vec() }
    }

    /// The path as text, with replacement characters where it is not UTF-8.
    pub fn display(&self) -> (r: String)
        ensures
            r@ == lossy_text(self@),
            valid_utf8(self@) ==> r@ == decode_utf8(self@),
    {
        from_utf8_lossy(self.bytes.as_slice())
    }

    /// The last component, if it is a name.
    pub fn file_name(&self) -> (r: Option<Vec<u8>>)
        ensures
            match r {
                Some(name) => file_name_of(self@) == Some(name@),
                None => file_name_of(self@) is None,
            },
    {
        let b = self.bytes.as_slice();
        let n: usize = stem_len(b, b.len());
        let at: usize = last_start_at(b, n);
        assert(b@.take(b@.len() as int) =~= self@);
        let name = copy_range(b, at, n);
        assert(name@ =~= stem(self@).skip(at as int));
        let size: usize = name.len();
        if size == 0 {
            return None;
        }
        if size == 1 && name[0] == DOT {
            assert(name@ =~= seq![DOT]);
            return None;
        }
        if size == 2 && name[0] == DOT && name[1] == DOT {
            assert(name@ =~= seq![DOT, DOT]);
            return None;
        }
        Some(name)
    }

    /// The path without its last component.
    pub fn parent(&self) -> (r: Option<HostPath>)
        ensures
            match r {
                Some(p) => parent_of(self@) == Some(p@),
                None => parent_of(self@) is None,
            },
    {
        let b = self.bytes.as_slice();
        let n: usize = stem_len(b, b.len());
        let at: usize = last_start_at(b, n);
        assert(b@.take(b@.len() as int) =~= self@);
        if at == n {
            return None;
        }
        assert(stem(self@).take(at as int) =~= b@.take(at as int));
        let keep: usize = stem_len(b, at);
        let bytes = copy_range(b, 0, keep);
        assert(bytes@ =~= b@.take(keep as int));
        Some(HostPath { bytes })
    }

    /// This path extended by `tail`.
    pub fn join_bytes(&self, tail: &[u8]) -> (r: HostPath)
        ensures
            r@ == joined(self@, tail@),
    {
        if tail.len() > 0 && tail[0] == SLASH {
            let bytes = copy_range(tail, 0, tail.len());
            assert(bytes@ =~= tail@);
            return HostPath { bytes };
        }
        let mut bytes = copy_range(self.bytes.as_slice(), 0, self.bytes.len());
        assert(bytes@ =~= self@);
        if self.bytes.len() > 0 && self.bytes[self.bytes.len() - 1] != SLASH {
            bytes.push(SLASH);
        }
        bytes.extend_from_slice(tail);
        HostPath { bytes }
    }

    /// This path extended by the path a text names.
    pub fn join(&self, tail: &str) -> (r: HostPath)
        ensures
            r@ == joined(self@, encode_utf8(tail@)),
    {
        self.join_bytes(tail.as_bytes())
    }

    /// Whether two paths hold the same bytes.
    pub fn same(&self, other: &HostPath) -> (r: bool)
        ensures
            r == (self@ == other@),
    {
        crate::text::bytes_eq(self.bytes.as_slice(), other.bytes.as_slice())
    }
}

impl Clone for HostPath {
    fn clone(&self) -> (r: HostPath)
        ensures
            r@ == self@,
    {
        let bytes = copy_range(self.bytes.as_slice(), 0, self.bytes.len());
        assert(bytes@ =~= self@);
        HostPath { bytes }
    }
}

/// The path of a sibling: in the directory that holds `path`, under `name`.
pub open spec fn sibling(path: Seq<u8>, name: Seq<char>) -> Option<Seq<u8>> {
    match parent_of(path) {
        Some(parent) => Some(joined(parent, encode_utf8(name))),
        None => None,
    }
}

/// The start of the last component of a path that ends in a name without
/// separators.
proof fn lemma_last_start_of_joined(base: Seq<u8>, name: Seq<u8>)
    requires
        forall|i: int| 0 <= i < name.len() ==> name[i] != SLASH,
        base.len() == 0 || base.last() == SLASH,
    ensures
        last_start(base + name) == base.len(),
    decreases name.len(),
{
    if name.len() == 0 {
        assert(base + name =~= base);
    } else {
        assert((base + name).drop_last() =~= base + name.drop_last());
        lemma_last_start_of_joined(base, name.drop_last());
    }
}

/// Joining a plain name and asking for the last component gives the name back.
pub proof fn law_joined_name_is_file_name(base: Seq<u8>, name: Seq<u8>)
    requires
        name.len() > 0,
        forall|i: int| 0 <= i < name.len() ==> name[i] != SLASH,
        name != seq![DOT],
        name != seq![DOT, DOT],
    ensures
        file_name_of(joined(base, name)) == Some(name),
{
    let whole = joined(base, name);
    let head = if base.len() == 0 || base.last() == SLASH {
        base
    } else {
        base.push(SLASH)
    };
    assert(whole == head + name);
    assert(whole.last() == name.last());
    if whole.len() >= 2 && whole.last() == DOT && whole[whole.len() - 2] == SLASH {
        if name.len() >= 2 {
            assert(whole[whole.len() - 2] == name[name.len() - 2]);
        } else {
            assert(name =~= seq![DOT]);
        }
        assert(false);
    }
    assert(stem(whole) == whole);
    lemma_last_start_of_joined(head, name);
    assert(whole.skip(head.len() as int) =~= name);
}

/// Joining a plain name and asking for the directory gives the directory back,
/// where it is written without a separator or a lone dot after it.
pub proof fn law_joined_parent(base: Seq<u8>, name: Seq<u8>)
    requires
        name.len() > 0,
        forall|i: int| 0 <= i < name.len() ==> name[i] != SLASH,
        name != seq![DOT],
        stem(base) == base,
    ensures
        parent_of(joined(base, name)) == Some(base),
{
    let whole = joined(base, name);
    let head = if base.len() == 0 || base.last() == SLASH {
        base
    } else {
        base.push(SLASH)
    };
    assert(whole == head + name);
    assert(whole.last() == name.last());
    if whole.len() >= 2 && whole.last() == DOT && whole[whole.len() - 2] == SLASH {
        if name.len() >= 2 {
            assert(whole[whole.len() - 2] == name[name.len() - 2]);
        } else {
            assert(name =~= seq![DOT]);
        }
        assert(false);
    }
    assert(stem(whole) == whole);
    lemma_last_start_of_joined(head, name);
    assert(whole.take(head.len() as int) =~= head);
    assert(stem(head) == base) by {
        if head != base {
            assert(head.drop_last() =~= base);
        }
    }
}

/// A text is no longer than its bytes.
pub proof fn lemma_encoded_length(s: Seq<char>)
    ensures
        encode_utf8(s).len() >= s.len(),
    decreases s.len(),
{
    if s.len() > 0 {
        lemma_encoded_length(s.drop_first());
    }
}

/// The pieces of a path between separators, but for empty ones and `.`.
pub open spec fn pieces(p: Seq<u8>) -> Seq<Seq<u8>>
    decreases p.len(),
    via pieces_shrink
{
    if p.len() == 0 {
        Seq::empty()
    } else {
        let at = last_start(p);
        let name = p.skip(at);
        let head = if at == 0 { Seq::empty() } else { pieces(p.take(at - 1)) };
        if name.len() == 0 || name == seq![DOT] {
            head
        } else {
            head.push(name)
        }
    }
}

#[via_fn]
proof fn pieces_shrink(p: Seq<u8>) {
    lemma_last_start_bounds(p);
}

/// Whether a path starts at the root.
pub open spec fn is_absolute(p: Seq<u8>) -> bool {
    p.len() > 0 && p[0] == SLASH
}

/// A list of byte strings as a sequence of sequences.
pub open spec fn byte_strings(v: Seq<Vec<u8>>) -> Seq<Seq<u8>> {
    v.map_values(|b: Vec<u8>| b@)
}

/// The path made of the given names, one below the other.
pub open spec fn path_of(names: Seq<Seq<u8>>) -> Seq<u8>
    decreases names.len(),
{
    if names.len() == 0 {
        Seq::empty()
    } else {
        joined(path_of(names.drop_last()), names.last())
    }
}

/// The pieces of the first `len` bytes of a path.
fn pieces_upto(bytes: &[u8], len: usize) -> (r: Vec<Vec<u8>>)
    requires
        len <= bytes@.len(),
    ensures
        byte_strings(r@) == pieces(bytes@.take(len as int)),
    decreases len,
{
    if len == 0 {
        let r: Vec<Vec<u8>> = Vec::new();
        assert(byte_strings(r@) =~= pieces(bytes@.take(0)));
        return r;
    }
    let at: usize = last_start_at(bytes, len);
    let name = copy_range(bytes, at, len);
    let ghost p = bytes@.take(len as int);
    assert(name@ =~= p.skip(at as int));
    let mut head: Vec<Vec<u8>> = Vec::new();
    if at > 0 {
        assert(p.take(at - 1) =~= bytes@.take(at - 1));
        head = pieces_upto(bytes, at - 1);
    } else {
        assert(byte_strings(head@) =~= Seq::<Seq<u8>>::empty());
    }
    if name.len() == 0 {
        return head;
    }
    if name.len() == 1 && name[0] == DOT {
        assert(name@ =~= seq![DOT]);
        return head;
    }
    let ghost before = head@;
    head.push(name);
    assert(byte_strings(head@) =~= byte_strings(before).push(name@));
    head
}

impl HostPath {
    /// The pieces of this path between separators, but for empty ones and `.`.
    pub fn components(&self) -> (r: Vec<Vec<u8>>)
        ensures
            byte_strings(r@) == pieces(self@),
    {
        assert(self@.take(self@.len() as int) =~= self@);
        pieces_upto(self.bytes.as_slice(), self.bytes.len())
    }
}

/// The path made of the given names, one below the other.
pub fn path_from(names: &Vec<Vec<u8>>) -> (r: HostPath)
    ensures
        r@ == path_of(byte_strings(names@)),
{
    let mut path = HostPath { bytes: Vec::new() };
    let mut i: usize = 0;
    while i < names.len()
        invariant
            i <= names@.len(),
            path@ == path_of(byte_strings(names@.take(i as int))),
        decreases names.len() - i,
    {
        let ghost before = byte_strings(names@.take(i as int));
        let ghost after = byte_strings(names@.take(i + 1));
        path = path.join_bytes(names[i].as_slice());
        i += 1;
        proof {
            assert(after.drop_last() =~= before);
            assert(after.last() == names@[i - 1]@);
        }
    }
    assert(names@.take(i as int) =~= names@);
    path
}

/// Cutting a path at a separator cuts its pieces.
pub proof fn lemma_pieces_of_cut(a: Seq<u8>, b: Seq<u8>)
    ensures
        pieces(a.push(SLASH) + b) == pieces(a) + pieces(b),
    decreases b.len(),
{
    let whole = a.push(SLASH) + b;
    lemma_last_start_bounds(b);
    if b.len() == 0 {
        assert(whole =~= a.push(SLASH));
        assert(last_start(whole) == whole.len());
        assert(whole.skip(whole.len() as int) =~= Seq::<u8>::empty());
        assert(whole.take(whole.len() - 1) =~= a);
        assert(pieces(a) + pieces(b) =~= pieces(a));
    } else {
        let at = last_start(b);
        lemma_last_start_of_cut(a.push(SLASH), b);
        assert(whole.skip(last_start(whole)) =~= b.skip(at));
        if at == 0 {
            assert(whole.take(a.len() as int) =~= a);
            assert(pieces(b) =~= if b.skip(at).len() == 0 || b.skip(at) == seq![DOT] {
                Seq::<Seq<u8>>::empty()
            } else {
                Seq::<Seq<u8>>::empty().push(b.skip(at))
            });
            assert(pieces(whole) =~= pieces(a) + pieces(b));
        } else {
            lemma_pieces_of_cut(a, b.take(at - 1));
            assert(whole.take(last_start(whole) - 1) =~= a.push(SLASH) + b.take(at - 1));
            assert(pieces(whole) =~= pieces(a) + pieces(b));
        }
    }
}

proof fn lemma_last_start_of_cut(head: Seq<u8>, b: Seq<u8>)
    requires
        head.len() > 0,
        head.last() == SLASH,
    ensures
        last_start(head + b) == head.len() + last_start(b),
    decreases b.len(),
{
    if b.len() == 0 {
        assert(head + b =~= head);
    } else if b.last() == SLASH {
        assert((head + b).last() == b.last());
    } else {
        assert((head + b).last() == b.last());
        assert((head + b).drop_last() =~= head + b.drop_last());
        lemma_last_start_of_cut(head, b.drop_last());
    }
}

/// Joining a relative path appends its pieces: what is above it is unchanged.
pub proof fn law_joined_pieces(base: Seq<u8>, tail: Seq<u8>)
    requires
        !is_absolute(tail),
    ensures
        pieces(joined(base, tail)) == pieces(base) + pieces(tail),
{
    if base.len() == 0 {
        assert(base + tail =~= tail);
        assert(pieces(base) + pieces(tail) =~= pieces(tail));
    } else if base.last() == SLASH {
        let head = base.drop_last();
        assert(head.push(SLASH) =~= base);
        lemma_pieces_of_cut(head, tail);
        lemma_pieces_of_cut(head, Seq::empty());
        assert(head.push(SLASH) + Seq::<u8>::empty() =~= base);
        assert(pieces(head) + pieces(Seq::<u8>::empty()) =~= pieces(head));
    } else {
        lemma_pieces_of_cut(base, tail);
    }
}

/// The encoding of two texts put together is their encodings put together.
pub proof fn lemma_encode_concat(a: Seq<char>, b: Seq<char>)
    ensures
        encode_utf8(a + b) == encode_utf8(a) + encode_utf8(b),
    decreases a.len(),
{
    if a.len() == 0 {
        assert(a + b =~= b);
        assert(encode_utf8(a) + encode_utf8(b) =~= encode_utf8(b));
    } else {
        assert((a + b).drop_first() =~= a.drop_first() + b);
        lemma_encode_concat(a.drop_first(), b);
        assert(encode_utf8(a + b) =~= encode_utf8(a) + encode_utf8(b));
    }
}

/// Trailing separators and `.` add no pieces.
pub proof fn lemma_pieces_of_stem(p: Seq<u8>)
    ensures
        pieces(stem(p)) == pieces(p),
    decreases p.len(),
{
    if p.len() >= 2 && (p.last() == SLASH || (p.last() == DOT && p[p.len() - 2] == SLASH)) {
        let shorter = p.drop_last();
        lemma_pieces_of_stem(shorter);
        if p.last() == SLASH {
            lemma_pieces_of_cut(shorter, Seq::empty());
            assert(shorter.push(SLASH) + Seq::<u8>::empty() =~= p);
            assert(pieces(shorter) + pieces(Seq::<u8>::empty()) =~= pieces(shorter));
        } else {
            let base = shorter.drop_last();
            lemma_pieces_of_cut(base, seq![DOT]);
            lemma_pieces_of_cut(base, Seq::empty());
            assert(base.push(SLASH) + seq![DOT] =~= p);
            assert(base.push(SLASH) + Seq::<u8>::empty() =~= shorter);
            lemma_pieces_of_dot();
            assert(pieces(base) + pieces(Seq::<u8>::empty()) =~= pieces(base));
        }
    }
}

proof fn lemma_pieces_of_dot()
    ensures
        pieces(seq![DOT]) == Seq::<Seq<u8>>::empty(),
        pieces(Seq::<u8>::empty()) == Seq::<Seq<u8>>::empty(),
{
    let p = seq![DOT];
    lemma_last_start_of_joined(Seq::empty(), p);
    assert(Seq::<u8>::empty() + p =~= p);
    assert(p.skip(0) =~= p);
    assert(pieces(p) =~= Seq::<Seq<u8>>::empty());
}

proof fn lemma_scalar_no_slash(c: u32)
    requires
        c != 0x2f,
    ensures
        forall|i: int| 0 <= i < encode_scalar(c).len() ==> #[trigger] encode_scalar(c)[i] != SLASH,
{
    assert(c <= 0x7f && c != 0x2f ==> (c & 0x7f) as u8 != 0x2fu8) by (bit_vector);
    assert(0xc0u8 | ((c >> 6) & 0x1f) as u8 != 0x2fu8) by (bit_vector);
    assert(0xe0u8 | ((c >> 12) & 0x0f) as u8 != 0x2fu8) by (bit_vector);
    assert(0xf0u8 | ((c >> 18) & 0x7) as u8 != 0x2fu8) by (bit_vector);
    assert(0x80u8 | (c & 0x3f) as u8 != 0x2fu8) by (bit_vector);
    assert(0x80u8 | ((c >> 6) & 0x3f) as u8 != 0x2fu8) by (bit_vector);
    assert(0x80u8 | ((c >> 12) & 0x3f) as u8 != 0x2fu8) by (bit_vector);
}

proof fn lemma_slash_only(c: char)
    requires
        c != '/',
    ensures
        c as u32 != 0x2f,
{
}

/// A text without slashes has none in its bytes.
pub proof fn lemma_no_slash_bytes(s: Seq<char>)
    requires
        !s.contains('/'),
    ensures
        forall|i: int| 0 <= i < encode_utf8(s).len() ==> #[trigger] encode_utf8(s)[i] != SLASH,
    decreases s.len(),
{
    if s.len() > 0 {
        assert(s[0] != '/');
        lemma_slash_only(s[0]);
        lemma_scalar_no_slash(s[0] as u32);
        assert forall|i: int| 0 <= i < s.drop_first().len() implies s.drop_first()[i] != '/' by {
            assert(s.drop_first()[i] == s[i + 1]);
        }
        lemma_no_slash_bytes(s.drop_first());
        let head = encode_scalar(s[0] as u32);
        let rest = encode_utf8(s.drop_first());
        assert(encode_utf8(s) == head + rest);
        assert forall|i: int| 0 <= i < encode_utf8(s).len() implies #[trigger] encode_utf8(s)[i]
            != SLASH by {
            if i < head.len() {
                assert(encode_utf8(s)[i] == head[i]);
            } else {
                assert(encode_utf8(s)[i] == rest[i - head.len()]);
            }
        }
    }
}

/// A name without separators is one piece.
pub proof fn lemma_pieces_of_name(name: Seq<u8>)
    requires
        name.len() > 0,
        forall|i: int| 0 <= i < name.len() ==> name[i] != SLASH,
        name != seq![DOT],
    ensures
        pieces(name) == seq![name],
{
    lemma_last_start_of_joined(Seq::empty(), name);
    assert(Seq::<u8>::empty() + name =~= name);
    assert(name.skip(0) =~= name);
    assert(pieces(name) =~= seq![name]);
}

/// A path with a name is its parent's pieces and then its name, which holds no
/// separator.
pub proof fn law_parent_and_name(p: Seq<u8>)
    requires
        parent_of(p) is Some,
        file_name_of(p) is Some,
    ensures
        pieces(p) == pieces(parent_of(p)->0).push(file_name_of(p)->0),
        forall|i: int|
            0 <= i < file_name_of(p)->0.len() ==> file_name_of(p)->0[i] != SLASH,
{
    let s = stem(p);
    let at = last_start(s);
    let name = s.skip(at);
    lemma_pieces_of_stem(p);
    lemma_last_start_bounds(s);
    lemma_last_start_tail(s);
    lemma_pieces_of_stem(s.take(at));
    assert(forall|i: int| 0 <= i < name.len() ==> name[i] == s[at + i]);
    if at > 0 {
        lemma_last_start_slash(s);
        assert(s.take(at) =~= s.take(at - 1).push(SLASH) + Seq::<u8>::empty());
        lemma_pieces_of_cut(s.take(at - 1), Seq::empty());
        lemma_pieces_of_dot();
        assert(pieces(s.take(at - 1)) + Seq::<Seq<u8>>::empty() =~= pieces(s.take(at - 1)));
    } else {
        assert(s.take(0) =~= Seq::<u8>::empty());
    }
}

/// What stands after the last component's start holds no separator.
proof fn lemma_last_start_tail(p: Seq<u8>)
    ensures
        forall|i: int| last_start(p) <= i < p.len() ==> p[i] != SLASH,
        0 <= last_start(p) <= p.len(),
    decreases p.len(),
{
    if p.len() == 0 || p.last() == SLASH {
    } else {
        lemma_last_start_tail(p.drop_last());
        assert(forall|i: int| last_start(p) <= i < p.len() - 1 ==> p.drop_last()[i] == p[i]);
    }
}

/// What stands before the last component is a separator.
proof fn lemma_last_start_slash(p: Seq<u8>)
    requires
        last_start(p) > 0,
    ensures
        0 < last_start(p) <= p.len(),
        p[last_start(p) - 1] == SLASH,
    decreases p.len(),
{
    if p.len() == 0 || p.last() == SLASH {
    } else {
        lemma_last_start_slash(p.drop_last());
    }
}

proof fn lemma_stem_shorter(p: Seq<u8>)
    ensures
        stem(p).len() <= p.len(),
    decreases p.len(),
{
    if p.len() >= 2 && (p.last() == SLASH || (p.last() == DOT && p[p.len() - 2] == SLASH)) {
        lemma_stem_shorter(p.drop_last());
    }
}

/// The path above another is shorter.
pub proof fn lemma_parent_shorter(p: Seq<u8>)
    ensures
        parent_of(p) matches Some(q) ==> q.len() < p.len(),
{
    let s = stem(p);
    lemma_last_start_bounds(s);
    lemma_stem_shorter(p);
    if parent_of(p) is Some {
        lemma_stem_shorter(s.take(last_start(s)));
    }
}

} // verus!
