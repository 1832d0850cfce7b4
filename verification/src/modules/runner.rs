use vstd::prelude::*;

verus! {

/// Where the shell finds its own command programs. Running a command is the
/// job of the application around this library.
pub struct Runner {
    bin_path: String,
}

impl Runner {
    /// A runner that looks for command programs in the directory `bin_path`.
    pub fn new(bin_path: String) -> (r: Self)
        ensures
            r.bin_dir() == bin_path@,
    {
        Runner { bin_path }
    }

    /// The directory of the shell's own command programs.
    pub closed spec fn bin_dir(&self) -> Seq<char> {
        self.bin_path@
    }

    /// The directory of the shell's own command programs.
    pub fn bin_path(&self) -> (p: &str)
        ensures
            p@ == self.bin_dir(),
    {
        self.bin_path.as_str()
    }
}

} // verus!
