//! The content-addressed staging store: blobs are keyed by their object id,
//! written at most once, and handed out together when the store is flushed.

use vstd::prelude::*;

verus! {

/// An object id: the 20-byte digest of a type-tagged object.
pub struct Oid {
    pub bytes: Vec<u8>,
}

impl View for Oid {
    type V = Seq<u8>;

    open spec fn view(&self) -> Seq<u8> {
        self.bytes@
    }
}

impl Clone for Oid {
    fn clone(&self) -> (r: Oid)
        ensures
            r@ == self@,
    {
        Oid { bytes: self.bytes.clone() }
    }
}

/// The object id of `content` stored as a blob.
pub uninterp spec fn blob_digest(content: Seq<u8>) -> Seq<u8>;

/// Whether hashing `content` as a blob fails.
pub uninterp spec fn blob_hash_fails(content: Seq<u8>) -> bool;

/// Relies on git2::Oid::hash_object with ObjectType::Blob, which hashes the
/// bytes as a blob object without storing them; whether it fails, and the
/// id, depend on the bytes alone; its raw id is 20 bytes long.
#[verifier::external_body]
fn hash_blob(content: &[u8]) -> (r: Option<Oid>)
    ensures
        r is None <==> blob_hash_fails(content@),
        r matches Some(o) ==> o@ == blob_digest(content@) && o@.len() == 20,
{
    match git2::Oid::hash_object(git2::ObjectType::Blob, content) {
        Ok(o) => Some(Oid { bytes: o.as_bytes().to_vec() }),
        Err(_) => None,
    }
}

/// Whether two ids are the same.
pub fn oid_eq(a: &Oid, b: &Oid) -> (r: bool)
    ensures
        r == (a@ == b@),
{
    let n = a.bytes.len();
    if n != b.bytes.len() {
        return false;
    }
    let mut i: usize = 0;
    while i < n
        invariant
            n == a@.len(),
            n == b@.len(),
            i <= n,
            forall|j: int| 0 <= j < i ==> a@[j] == b@[j],
        decreases n - i,
    {
        if a.bytes[i] != b.bytes[i] {
            return false;
        }
        i = i + 1;
    }
    assert(a@ =~= b@);
    true
}

/// A staged blob with its id.
pub struct StoredObject {
    pub oid: Oid,
    pub content: Vec<u8>,
}

impl View for StoredObject {
    type V = (Seq<u8>, Seq<u8>);

    open spec fn view(&self) -> (Seq<u8>, Seq<u8>) {
        (self.oid@, self.content@)
    }
}

/// The error of a store write: the object id could not be computed.
#[derive(Debug, PartialEq, Eq, Structural)]
pub enum StoreError {
    HashFailed,
}

/// Staged blobs, each at most once, in the order they were first written.
pub struct ObjectStore {
    objects: Vec<StoredObject>,
}

/// Whether a store content holds the id `o`.
pub open spec fn holds(s: Seq<(Seq<u8>, Seq<u8>)>, o: Seq<u8>) -> bool {
    exists|i: int| 0 <= i < s.len() && (#[trigger] s[i]).0 == o
}

/// How many stored objects carry the id `o`.
pub open spec fn copies(s: Seq<(Seq<u8>, Seq<u8>)>, o: Seq<u8>) -> nat
    decreases s.len(),
{
    if s.len() == 0 {
        0
    } else {
        copies(s.drop_last(), o) + if s.last().0 == o {
            1nat
        } else {
            0nat
        }
    }
}

/// Ids are unique and every stored object hashes to its id.
pub open spec fn store_wf(s: Seq<(Seq<u8>, Seq<u8>)>) -> bool {
    &&& forall|i: int, j: int| 0 <= i < j < s.len() ==> (#[trigger] s[i]).0 != (#[trigger] s[j]).0
    &&& forall|i: int| 0 <= i < s.len() ==> (#[trigger] s[i]).0 == blob_digest(s[i].1)
}

/// The store content after writing `content` as a blob.
pub open spec fn after_write(s: Seq<(Seq<u8>, Seq<u8>)>, content: Seq<u8>) -> Seq<
    (Seq<u8>, Seq<u8>),
> {
    if holds(s, blob_digest(content)) {
        s
    } else {
        s.push((blob_digest(content), content))
    }
}

/// The total size in bytes of the stored contents.
pub open spec fn stored_bytes(s: Seq<(Seq<u8>, Seq<u8>)>) -> nat
    decreases s.len(),
{
    if s.len() == 0 {
        0
    } else {
        stored_bytes(s.drop_last()) + s.last().1.len()
    }
}

impl View for ObjectStore {
    type V = Seq<(Seq<u8>, Seq<u8>)>;

    closed spec fn view(&self) -> Seq<(Seq<u8>, Seq<u8>)> {
        self.objects@.map_values(|o: StoredObject| o@)
    }
}

impl ObjectStore {
    pub open spec fn wf(&self) -> bool {
        store_wf(self@)
    }

    /// An empty store.
    pub fn new() -> (r: ObjectStore)
        ensures
            r.wf(),
            r@ == Seq::<(Seq<u8>, Seq<u8>)>::empty(),
    {
        let r = ObjectStore { objects: Vec::new() };
        assert(r@ =~= Seq::<(Seq<u8>, Seq<u8>)>::empty());
        r
    }

    /// How many distinct objects are staged.
    pub fn len(&self) -> (r: usize)
        ensures
            r == self@.len(),
    {
        self.objects.len()
    }

    /// Whether an object with id `oid` is staged.
    pub fn contains(&self, oid: &Oid) -> (r: bool)
        ensures
            r == holds(self@, oid@),
    {
        let mut i: usize = 0;
        while i < self.objects.len()
            invariant
                i <= self.objects.len(),
                forall|j: int| 0 <= j < i ==> self@[j].0 != oid@,
            decreases self.objects.len() - i,
        {
            if oid_eq(&self.objects[i].oid, oid) {
                assert(self@[i as int].0 == oid@);
                return true;
            }
            i = i + 1;
        }
        false
    }

    /// Stores `content` as a blob unless a blob with the same id is already
    /// there, and returns its id.
    pub fn write(&mut self, content: Vec<u8>) -> (r: Result<Oid, StoreError>)
        requires
            old(self).wf(),
        ensures
            final(self).wf(),
            r is Err <==> blob_hash_fails(content@),
            match r {
                Ok(o) => o@ == blob_digest(content@) && final(self)@ == after_write(
                    old(self)@,
                    content@,
                ),
                Err(_) => final(self)@ == old(self)@,
            },
    {
        let oid = match hash_blob(content.as_slice()) {
            Some(o) => o,
            None => {
                return Err(StoreError::HashFailed);
            },
        };
        if self.contains(&oid) {
            return Ok(oid);
        }
        let ghost before = self@;
        let stored = StoredObject { oid: oid.clone(), content };
        self.objects.push(stored);
        assert(self@ =~= before.push((oid@, stored@.1)));
        Ok(oid)
    }

    /// Hands out every staged object, in the order of first writing, and
    /// leaves the store empty.
    pub fn flush(&mut self) -> (r: Vec<StoredObject>)
        ensures
            r@.map_values(|o: StoredObject| o@) == old(self)@,
            final(self)@ == Seq::<(Seq<u8>, Seq<u8>)>::empty(),
            final(self).wf(),
    {
        let mut taken: Vec<StoredObject> = Vec::new();
        std::mem::swap(&mut taken, &mut self.objects);
        assert(self@ =~= Seq::<(Seq<u8>, Seq<u8>)>::empty());
        taken
    }

    /// The total size in bytes of the staged contents.
    pub fn total_size(&self) -> (r: u64)
        ensures
            r == if stored_bytes(self@) <= u64::MAX {
                stored_bytes(self@)
            } else {
                u64::MAX as nat
            },
    {
        let mut total: u64 = 0;
        let mut i: usize = 0;
        while i < self.objects.len()
            invariant
                i <= self.objects.len(),
                total == if stored_bytes(self@.take(i as int)) <= u64::MAX {
                    stored_bytes(self@.take(i as int))
                } else {
                    u64::MAX as nat
                },
            decreases self.objects.len() - i,
        {
            proof {
                assert(self@.take(i + 1).drop_last() == self@.take(i as int));
                assert(self@.take(i + 1).last() == self@[i as int]);
            }
            let add = self.objects[i].content.len() as u64;
            total = total.saturating_add(add);
            i = i + 1;
        }
        assert(self@.take(self.objects.len() as int) == self@);
        total
    }
}

proof fn lemma_copies_absent(s: Seq<(Seq<u8>, Seq<u8>)>, o: Seq<u8>)
    requires
        !holds(s, o),
    ensures
        copies(s, o) == 0,
    decreases s.len(),
{
    if s.len() > 0 {
        assert(s.last() == s[s.len() - 1]);
        assert forall|i: int| 0 <= i < s.drop_last().len() implies (
        #[trigger] s.drop_last()[i]).0 != o by {
            assert(s.drop_last()[i] == s[i]);
        }
        lemma_copies_absent(s.drop_last(), o);
    }
}

proof fn lemma_copies_unique(s: Seq<(Seq<u8>, Seq<u8>)>, o: Seq<u8>)
    requires
        store_wf(s),
        holds(s, o),
    ensures
        copies(s, o) == 1,
    decreases s.len(),
{
    let init = s.drop_last();
    assert(store_wf(init)) by {
        assert forall|i: int, j: int| 0 <= i < j < init.len() implies (#[trigger] init[i]).0 != (
        #[trigger] init[j]).0 by {
            assert(init[i] == s[i] && init[j] == s[j]);
        }
        assert forall|i: int| 0 <= i < init.len() implies (#[trigger] init[i]).0 == blob_digest(
            init[i].1,
        ) by {
            assert(init[i] == s[i]);
        }
    }
    if s.last().0 == o {
        assert forall|i: int| 0 <= i < init.len() implies (#[trigger] init[i]).0 != o by {
            assert(init[i] == s[i]);
            assert(s[i].0 != s[s.len() - 1].0);
        }
        lemma_copies_absent(init, o);
    } else {
        let i = choose|i: int| 0 <= i < s.len() && (#[trigger] s[i]).0 == o;
        assert(i != s.len() - 1);
        assert(init[i] == s[i]);
        lemma_copies_unique(init, o);
    }
}

/// Writing keeps the store well formed, and the written blob is stored under
/// its own id.
pub proof fn lemma_write_content_addressed(s: Seq<(Seq<u8>, Seq<u8>)>, content: Seq<u8>)
    requires
        store_wf(s),
    ensures
        store_wf(after_write(s, content)),
        holds(after_write(s, content), blob_digest(content)),
{
    let o = blob_digest(content);
    if !holds(s, o) {
        let t = s.push((o, content));
        assert(t[t.len() - 1].0 == o);
        assert forall|i: int, j: int| 0 <= i < j < t.len() implies (#[trigger] t[i]).0 != (
        #[trigger] t[j]).0 by {
            if j == t.len() - 1 {
                assert(t[i] == s[i]);
            } else {
                assert(t[i] == s[i] && t[j] == s[j]);
            }
        }
        assert forall|i: int| 0 <= i < t.len() implies (#[trigger] t[i]).0 == blob_digest(
            t[i].1,
        ) by {
            if i < s.len() {
                assert(t[i] == s[i]);
            }
        }
    }
}

/// Writing the same bytes a second time changes nothing: the store holds
/// exactly one copy of them.
pub proof fn lemma_write_idempotent(s: Seq<(Seq<u8>, Seq<u8>)>, content: Seq<u8>)
    requires
        store_wf(s),
    ensures
        after_write(after_write(s, content), content) == after_write(s, content),
        copies(after_write(after_write(s, content), content), blob_digest(content)) == 1,
{
    lemma_write_content_addressed(s, content);
    lemma_copies_unique(after_write(s, content), blob_digest(content));
}

} // verus!
