//! Error numbers.

use vstd::prelude::*;

verus! {

/// Why an operation failed.
#[derive(Copy, Clone, Debug, Eq, PartialEq, Structural)]
pub enum Errno {
    /// The file descriptor is not open.
    Badf,
    /// An argument is not valid.
    Inval,
    /// The file descriptor is taken.
    Mfile,
    /// The call is not supported.
    Nosys,
    /// The time is up.
    Time,
    /// No number is left.
    Overflow,
}

impl Errno {
    /// The number of this error in the C interface.
    pub open spec fn spec_number(self) -> i32 {
        match self {
            Errno::Badf => 9,
            Errno::Inval => 22,
            Errno::Mfile => 24,
            Errno::Nosys => 38,
            Errno::Time => 62,
            Errno::Overflow => 75,
        }
    }

    /// The number of this error in the C interface.
    pub fn number(self) -> (r: i32)
        ensures
            r == self.spec_number(),
    {
        match self {
            Errno::Badf => 9,
            Errno::Inval => 22,
            Errno::Mfile => 24,
            Errno::Nosys => 38,
            Errno::Time => 62,
            Errno::Overflow => 75,
        }
    }
}

/// The numbers of errors are those of the C interface: EBADF is 9, EINVAL 22, EMFILE 24, ENOSYS
/// 38, ETIME 62 and EOVERFLOW 75. Different errors have different numbers.
pub proof fn lemma_error_numbers(a: Errno, b: Errno)
    ensures
        a is Badf <==> a.spec_number() == 9,
        a is Inval <==> a.spec_number() == 22,
        a is Mfile <==> a.spec_number() == 24,
        a is Nosys <==> a.spec_number() == 38,
        a is Time <==> a.spec_number() == 62,
        a is Overflow <==> a.spec_number() == 75,
        a.spec_number() == b.spec_number() ==> a == b,
{
}

} // verus!
