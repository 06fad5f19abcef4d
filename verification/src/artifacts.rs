//! Where an installation put its outputs, and the metadata lines that tell
//! the calling build about them.

use vstd::prelude::*;
use vstd::string::*;
use crate::text::strings_view;

verus! {

/// Where the install stage put its outputs. The value only describes:
/// nothing is looked up on disk.
#[derive(Clone, Debug)]
pub struct Artifacts {
    pub install_dir: String,
    pub bin_dir: String,
    pub include_dir: String,
    pub lib_dir: String,
    /// Names of the libraries, in link order.
    pub libs: Vec<&'static str>,
}

/// Mathematical value of an [`Artifacts`].
pub struct ArtifactsView {
    pub install_dir: Seq<char>,
    pub bin_dir: Seq<char>,
    pub include_dir: Seq<char>,
    pub lib_dir: Seq<char>,
    pub libs: Seq<Seq<char>>,
}

impl View for Artifacts {
    type V = ArtifactsView;

    open spec fn view(&self) -> ArtifactsView {
        ArtifactsView {
            install_dir: self.install_dir@,
            bin_dir: self.bin_dir@,
            include_dir: self.include_dir@,
            lib_dir: self.lib_dir@,
            libs: Seq::new(self.libs@.len(), |i: int| self.libs@[i]@),
        }
    }
}

/// The line that adds `lib_dir` to the linker's search path.
pub open spec fn link_search_line(lib_dir: Seq<char>) -> Seq<char> {
    "cargo:rustc-link-search=native="@ + lib_dir
}

/// The line that links the library `lib` statically.
pub open spec fn link_lib_line(lib: Seq<char>) -> Seq<char> {
    "cargo:rustc-link-lib=static="@ + lib
}

/// The line that passes on the include directory.
pub open spec fn include_line(include_dir: Seq<char>) -> Seq<char> {
    "cargo:include="@ + include_dir
}

/// The line that passes on the library directory.
pub open spec fn lib_line(lib_dir: Seq<char>) -> Seq<char> {
    "cargo:lib="@ + lib_dir
}

/// The metadata lines for `a`: the search path, one line for each library
/// in link order, the include directory and the library directory.
pub open spec fn metadata_lines(a: ArtifactsView) -> Seq<Seq<char>> {
    seq![link_search_line(a.lib_dir)] + Seq::new(a.libs.len(), |i: int| link_lib_line(a.libs[i]))
        + seq![include_line(a.include_dir), lib_line(a.lib_dir)]
}

impl Artifacts {
    /// The metadata lines to print for the calling build, in order.
    pub fn print_cargo_metadata(&self) -> (lines: Vec<String>)
        ensures
            strings_view(lines@) == metadata_lines(self@),
    {
        let mut lines: Vec<String> = Vec::new();
        lines.push(String::from_str("cargo:rustc-link-search=native=").concat(self.lib_dir.as_str()));
        let mut i: usize = 0;
        while i < self.libs.len()
            invariant
                i <= self.libs.len(),
                lines.len() == i + 1,
                lines[0]@ == link_search_line(self@.lib_dir),
                forall|k: int| 0 <= k < i ==> #[trigger] lines[k + 1]@ == link_lib_line(self@.libs[k]),
            decreases self.libs.len() - i,
        {
            lines.push(String::from_str("cargo:rustc-link-lib=static=").concat(self.libs[i]));
            i += 1;
        }
        lines.push(String::from_str("cargo:include=").concat(self.include_dir.as_str()));
        lines.push(String::from_str("cargo:lib=").concat(self.lib_dir.as_str()));
        proof {
            let got = strings_view(lines@);
            let want = metadata_lines(self@);
            let n = self@.libs.len() as int;
            assert(want.len() == n + 3);
            assert forall|k: int| 0 <= k < got.len() implies got[k] == want[k] by {
                if 1 <= k <= n {
                    assert(lines[(k - 1) + 1]@ == link_lib_line(self@.libs[k - 1]));
                }
            }
            assert(got =~= want);
        }
        lines
    }
}

} // verus!
