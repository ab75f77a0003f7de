//! The applications that the file system holds, found by name.
use vstd::prelude::*;
use crate::mm::UserMemory;

verus! {

/// An application image: its name and the address space, entry point, user
/// stack and heap start with which it begins to run.
pub struct App {
    pub name: Vec<u8>,
    pub memory: UserMemory,
    pub entry: usize,
    pub user_sp: usize,
    pub heap_bottom: usize,
}

impl App {
    /// The address space is well formed and the heap starts inside it.
    pub open spec fn wf(&self) -> bool {
        self.memory.wf() && self.heap_bottom <= self.memory.bytes.len()
    }
}

/// Whether two byte strings are equal.
pub fn bytes_eq(a: &[u8], b: &[u8]) -> (r: bool)
    ensures
        r == (a@ == b@),
{
    if a.len() != b.len() {
        return false;
    }
    let mut i: usize = 0;
    while i < a.len()
        invariant
            a.len() == b.len(),
            i <= a.len(),
            forall|j: int| 0 <= j < i ==> a[j] == b[j],
        decreases a.len() - i,
    {
        if a[i] != b[i] {
            return false;
        }
        i = i + 1;
    }
    assert(a@ =~= b@);
    true
}

/// `apps[i]` is the first application named `name`.
pub open spec fn app_named(apps: Seq<App>, name: Seq<u8>, i: int) -> bool {
    &&& 0 <= i < apps.len()
    &&& apps[i].name@ == name
    &&& forall|j: int| 0 <= j < i ==> (#[trigger] apps[j]).name@ != name
}

/// The index of the first application named `name`, if any.
pub fn open_file(apps: &Vec<App>, name: &[u8]) -> (r: Option<usize>)
    ensures
        r is None <==> forall|j: int| 0 <= j < apps.len() ==> (#[trigger] apps[j]).name@ != name@,
        r matches Some(i) ==> app_named(apps@, name@, i as int),
{
    let mut i: usize = 0;
    while i < apps.len()
        invariant
            i <= apps.len(),
            forall|j: int| 0 <= j < i ==> (#[trigger] apps[j]).name@ != name@,
        decreases apps.len() - i,
    {
        if bytes_eq(apps[i].name.as_slice(), name) {
            return Some(i);
        }
        i = i + 1;
    }
    None
}

} // verus!
