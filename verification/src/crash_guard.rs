//! Decisions of the last-resort containment of hardware exceptions raised by
//! third-party code injected into the process (a broken Winsock layered
//! service provider, for instance).
//!
//! Only illegal-instruction and access-violation faults are considered, and a
//! fault inside the agent's own module is never intercepted, so a real bug of
//! the agent still crashes visibly.

use vstd::prelude::*;
use crate::text::{chars_of, slice_chars};
use crate::unicode::string_from_chars;

verus! {

/// NTSTATUS of an illegal instruction fault.
pub const EXCEPTION_ILLEGAL_INSTRUCTION: u32 = 0xC000_001D;

/// NTSTATUS of an access violation fault.
pub const EXCEPTION_ACCESS_VIOLATION: u32 = 0xC000_0005;

/// What the vectored exception handler does with a fault.
#[derive(Debug, Clone, Copy, PartialEq, Eq, Structural)]
pub enum Disposition {
    /// Leave the fault to the next handler (`EXCEPTION_CONTINUE_SEARCH`).
    ContinueSearch,
    /// Log it and end only the faulting thread.
    ContainThread,
}

/// Whether `address` lies in the agent's own module `[own_base, own_end)`;
/// a base of 0 means the range could not be determined, and then no address
/// counts as the agent's own.
pub open spec fn in_own_module(address: usize, own_base: usize, own_end: usize) -> bool {
    own_base != 0 && own_base <= address && address < own_end
}

/// A fault is contained exactly when it is one of the two hardware fault
/// classes and did not happen inside the agent's own module.
pub open spec fn disposition_of(code: u32, address: usize, own_base: usize, own_end: usize) -> Disposition {
    if code != EXCEPTION_ILLEGAL_INSTRUCTION && code != EXCEPTION_ACCESS_VIOLATION {
        Disposition::ContinueSearch
    } else if in_own_module(address, own_base, own_end) {
        Disposition::ContinueSearch
    } else {
        Disposition::ContainThread
    }
}

/// Decides what to do with a fault of NTSTATUS `code` at `address`.
pub fn exception_disposition(code: u32, address: usize, own_base: usize, own_end: usize) -> (d:
    Disposition)
    ensures
        d == disposition_of(code, address, own_base, own_end),
{
    if code != EXCEPTION_ILLEGAL_INSTRUCTION && code != EXCEPTION_ACCESS_VIOLATION {
        return Disposition::ContinueSearch;
    }
    let in_own = own_base != 0 && address >= own_base && address < own_end;
    if in_own {
        Disposition::ContinueSearch
    } else {
        Disposition::ContainThread
    }
}

/// The name logged for a contained fault.
pub fn exception_code_name(code: u32) -> (name: &'static str)
    ensures
        name@ == if code == EXCEPTION_ILLEGAL_INSTRUCTION {
            "EXCEPTION_ILLEGAL_INSTRUCTION"@
        } else {
            "EXCEPTION_ACCESS_VIOLATION"@
        },
{
    if code == EXCEPTION_ILLEGAL_INSTRUCTION {
        "EXCEPTION_ILLEGAL_INSTRUCTION"
    } else {
        "EXCEPTION_ACCESS_VIOLATION"
    }
}

/// Whether `c` separates path components (`\` or `/`).
pub open spec fn is_path_sep(c: char) -> bool {
    c == '\\' || c == '/'
}

/// The last component of a module path: what follows its last separator (the
/// whole path when it has none).
pub open spec fn file_name_of(path: Seq<char>) -> Seq<char>
    decreases path.len(),
{
    if path.len() == 0 {
        path
    } else if is_path_sep(path.last()) {
        seq![]
    } else {
        file_name_of(path.drop_last()).push(path.last())
    }
}

/// The file name of a module from its full path.
pub fn module_file_name(full_path: &str) -> (r: String)
    ensures
        r@ == file_name_of(full_path@),
{
    let cs = chars_of(full_path);
    let mut start: usize = cs.len();
    assert(cs@.take(cs.len() as int) =~= cs@);
    assert(cs@.skip(cs.len() as int) =~= Seq::<char>::empty());
    assert(cs@ + Seq::<char>::empty() =~= cs@);
    while start > 0 && cs[start - 1] != '\\' && cs[start - 1] != '/'
        invariant
            start <= cs.len(),
            file_name_of(cs@) == file_name_of(cs@.take(start as int)) + cs@.skip(start as int),
        decreases start,
    {
        let ghost t = cs@.take(start as int);
        assert(t.drop_last() =~= cs@.take(start - 1));
        assert(t.last() == cs@[start - 1]);
        assert(seq![cs@[start - 1]] + cs@.skip(start as int) =~= cs@.skip(start - 1));
        assert(file_name_of(cs@.take(start - 1)).push(cs@[start - 1]) + cs@.skip(start as int)
            =~= file_name_of(cs@.take(start - 1)) + cs@.skip(start - 1));
        start -= 1;
    }
    assert(cs@.take(cs.len() as int) =~= cs@);
    let r = slice_chars(&cs, start, cs.len());
    assert(r@ =~= cs@.skip(start as int));
    assert(file_name_of(cs@.take(start as int)) =~= Seq::<char>::empty()) by {
        if start > 0 {
            assert(cs@.take(start as int).last() == cs@[start - 1]);
        } else {
            assert(cs@.take(0) =~= Seq::<char>::empty());
        }
    }
    assert(Seq::<char>::empty() + cs@.skip(start as int) =~= cs@.skip(start as int));
    string_from_chars(&r)
}

/// Installs the crash guard on platforms without Winsock layered service
/// providers: there is nothing to guard against, so nothing is installed.
pub fn install() {
}


/// A fault inside the agent's own module always surfaces, and only the two
/// hardware fault classes are ever contained.
pub proof fn lemma_own_faults_surface(code: u32, address: usize, own_base: usize, own_end: usize)
    ensures
        in_own_module(address, own_base, own_end) ==> disposition_of(
            code,
            address,
            own_base,
            own_end,
        ) == Disposition::ContinueSearch,
        disposition_of(code, address, own_base, own_end) == Disposition::ContainThread ==> (code
            == EXCEPTION_ILLEGAL_INSTRUCTION || code == EXCEPTION_ACCESS_VIOLATION),
{
}

/// A module's file name holds no separator and is what its path ends with.
pub proof fn lemma_file_name_is_last_component(path: Seq<char>)
    ensures
        file_name_of(path).len() <= path.len(),
        file_name_of(path) == path.skip(path.len() - file_name_of(path).len()),
        forall|i: int|
            0 <= i < file_name_of(path).len() ==> !is_path_sep(#[trigger] file_name_of(path)[i]),
    decreases path.len(),
{
    if path.len() > 0 && !is_path_sep(path.last()) {
        let t = path.drop_last();
        lemma_file_name_is_last_component(t);
        let f = file_name_of(t);
        assert(t.skip(t.len() - f.len()).push(path.last()) =~= path.skip(path.len() - f.len() - 1));
        assert forall|i: int| 0 <= i < f.len() + 1 implies !is_path_sep(
            #[trigger] f.push(path.last())[i],
        ) by {
            if i < f.len() {
                assert(f.push(path.last())[i] == f[i]);
            }
        }
    } else {
        assert(path.skip(path.len() as int) =~= Seq::<char>::empty());
    }
}

} // verus!
