//! Naming of shared-memory objects and the record of the mappings a
//! process has made, so that each can be unlinked again by its address.
use vstd::prelude::*;
use vstd::utf8::encode_utf8;
use cstr_core::CString;

verus! {

/// `cstr_core::CString`, an owned, nul-terminated byte string, carried
/// through the library without Verus looking inside it.
#[verifier::external_type_specification]
#[verifier::external_body]
pub struct ExCString(CString);

/// The bytes that a C string holds, without its terminating nul (what
/// `CString::as_bytes` hands out).
pub uninterp spec fn c_string_bytes(c: CString) -> Seq<u8>;

/// The directory under which shared-memory objects are named.
pub open spec fn shm_dir() -> Seq<char> {
    seq!['/', 'd', 'e', 'v', '/', 's', 'h', 'm', '/']
}

/// The path of the shared-memory object called `name`.
pub open spec fn shm_path_of(name: Seq<char>) -> Seq<char> {
    shm_dir() + name
}

/// Makes a C string of the bytes of `path` by `cstr_core::CString::new`.
/// Its source returns an error exactly when the bytes hold a nul byte, and
/// otherwise a C string whose bytes, without the terminating nul, are those
/// of `path`; that is what this contract claims.
#[verifier::external_body]
fn c_string(path: String) -> (result: Option<CString>)
    ensures
        result is Some <==> !encode_utf8(path@).contains(0u8),
        result matches Some(c) ==> c_string_bytes(c) == encode_utf8(path@),
{
    match CString::new(path) {
        Ok(c) => Some(c),
        Err(_) => None,
    }
}

/// The path of the shared-memory object called `name`: `/dev/shm/` followed by `name`.
pub fn shm_path(name: &str) -> (path: String)
    ensures
        path@ == shm_path_of(name@),
{
    let mut path = String::from_str("/dev/shm/");
    proof {
        reveal_strlit("/dev/shm/");
    }
    assert(path@ =~= shm_dir());
    path.append(name);
    path
}

/// The path of the shared-memory object called `name` as a C string, or
/// `None` when the path holds a nul byte.
pub fn shm_c_path(name: &str) -> (result: Option<CString>)
    ensures
        result is Some <==> !encode_utf8(shm_path_of(name@)).contains(0u8),
        result matches Some(c) ==> c_string_bytes(c) == encode_utf8(shm_path_of(name@)),
{
    let path = shm_path(name);
    c_string(path)
}

/// Whether some entry of `entries` records `address`.
pub open spec fn records<N>(entries: Seq<(usize, N)>, address: usize) -> bool {
    exists|i: int| 0 <= i < entries.len() && #[trigger] entries[i].0 == address
}

/// `i` is the first entry of `entries` that records `address`.
pub open spec fn first_record<N>(entries: Seq<(usize, N)>, address: usize, i: int) -> bool {
    &&& 0 <= i < entries.len()
    &&& entries[i].0 == address
    &&& forall|j: int| 0 <= j < i ==> #[trigger] entries[j].0 != address
}

/// The mappings a process has made: the address of each, with the name of
/// the object mapped there, oldest first.
pub struct Registry<N> {
    entries: Vec<(usize, N)>,
}

impl<N> View for Registry<N> {
    type V = Seq<(usize, N)>;

    closed spec fn view(&self) -> Seq<(usize, N)> {
        self.entries@
    }
}

impl<N> Registry<N> {
    /// A record of no mappings.
    pub fn new() -> (registry: Self)
        ensures
            registry@ == Seq::<(usize, N)>::empty(),
    {
        Registry { entries: Vec::new() }
    }

    /// How many mappings are recorded.
    pub fn len(&self) -> (count: usize)
        ensures
            count == self@.len(),
    {
        self.entries.len()
    }

    /// Records that the object `name` is mapped at `address`.
    pub fn register(&mut self, address: usize, name: N)
        ensures
            final(self)@ == old(self)@.push((address, name)),
    {
        self.entries.push((address, name));
    }

    /// Removes the oldest record of `address` and returns its name, or
    /// returns `None` when `address` is not recorded.
    pub fn take(&mut self, address: usize) -> (name: Option<N>)
        ensures
            name is None <==> !records(old(self)@, address),
            name is None ==> final(self)@ == old(self)@,
            name matches Some(n) ==> exists|i: int|
                first_record(old(self)@, address, i) && #[trigger] old(self)@[i].1 == n
                    && final(self)@ == old(self)@.remove(i),
    {
        let mut i: usize = 0;
        while i < self.entries.len()
            invariant
                self.entries@ == old(self)@,
                i <= self.entries@.len(),
                forall|j: int| 0 <= j < i ==> #[trigger] self.entries@[j].0 != address,
            decreases self.entries@.len() - i,
        {
            if self.entries[i].0 == address {
                let (_, name) = self.entries.remove(i);
                assert(first_record(old(self)@, address, i as int));
                return Some(name);
            }
            i = i + 1;
        }
        None
    }
}

} // verus!
