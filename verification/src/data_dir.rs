//! Where the data lies: beside the program, or with the user's data.

use crate::order::survivors;
use crate::path::{extension, extension_of, join_name, joined};
use crate::text::{
    ascii_lower_all, chars_of, decimal, lower_chars, push_decimal, same_chars, views,
};
use vstd::prelude::*;

verus! {

/// The file beside the program that makes it portable.
pub const PORTABLE_MARKER: &'static str = "portable.flag";

/// The directory of a portable program's data.
pub const DATA_DIRECTORY: &'static str = "data";

/// The files that make up the data.
pub const MANAGED_FILES: [&'static str; 3] = ["wisp.db", "wisp.db-wal", "wisp.cfg"];

/// How the program was set up.
#[derive(Debug, Clone, Copy, PartialEq, Eq, Structural)]
pub enum DistributionMode {
    Installed,
    Portable,
}

impl DistributionMode {
    pub fn name(self) -> (r: &'static str)
        ensures
            r@ == match self {
                DistributionMode::Installed => "安装版"@,
                DistributionMode::Portable => "便携版"@,
            },
    {
        match self {
            DistributionMode::Installed => "安装版",
            DistributionMode::Portable => "便携版",
        }
    }
}

/// Where this program's data lies.
#[derive(Debug, Clone)]
pub struct DataDirectory {
    mode: DistributionMode,
    root: String,
    installed_root: String,
}

impl DataDirectory {
    pub closed spec fn spec_mode(&self) -> DistributionMode {
        self.mode
    }

    /// The directory of the data.
    pub closed spec fn root_path(&self) -> Seq<char> {
        self.root@
    }

    /// The directory of an installed program's data.
    pub closed spec fn installed_path(&self) -> Seq<char> {
        self.installed_root@
    }

    /// Chooses the directory: `marker` says whether the file that makes the
    /// program portable lies beside it. The program's directory must be known.
    pub fn from_paths(executable_dir: Option<&str>, local_app_data: &str, marker: bool) -> (r:
        Result<Self, String>)
        ensures
            r is Ok <==> executable_dir is Some && executable_dir->0@.len() > 0,
            r matches Ok(d) ==> {
                &&& d.installed_path() == joined(local_app_data@, "Wisp"@)
                &&& d.spec_mode() == (if marker {
                    DistributionMode::Portable
                } else {
                    DistributionMode::Installed
                })
                &&& d.root_path() == if marker {
                    joined(executable_dir->0@, "data"@)
                } else {
                    d.installed_path()
                }
            },
            r matches Err(e) ==> e@ == "Wisp 程序路径缺少父目录"@,
    {
        match executable_dir {
            Some(dir) => {
                if dir.is_empty() {
                    return Err("Wisp 程序路径缺少父目录".to_owned());
                }
                let installed_root = join_name(local_app_data, "Wisp");
                let (mode, root) = if marker {
                    (DistributionMode::Portable, join_name(dir, "data"))
                } else {
                    (DistributionMode::Installed, installed_root.clone())
                };
                Ok(DataDirectory { mode, root, installed_root })
            },
            None => Err("Wisp 程序路径缺少父目录".to_owned()),
        }
    }

    pub fn mode(&self) -> (r: DistributionMode)
        ensures
            r == self.spec_mode(),
    {
        self.mode
    }

    pub fn root(&self) -> (r: &str)
        ensures
            r@ == self.root_path(),
    {
        self.root.as_str()
    }

    pub fn installed_root(&self) -> (r: &str)
        ensures
            r@ == self.installed_path(),
    {
        self.installed_root.as_str()
    }

    pub fn database_path(&self) -> (r: String)
        ensures
            r@ == joined(self.root_path(), "wisp.db"@),
    {
        join_name(self.root.as_str(), "wisp.db")
    }

    /// Whether to offer the data of an installed program: only to a portable
    /// one that has none yet.
    pub fn should_offer_installed_data_import(
        &self,
        root_exists: bool,
        installed_has_data: bool,
    ) -> (r: bool)
        ensures
            r == (self.spec_mode() == DistributionMode::Portable && !root_exists
                && installed_has_data),
    {
        self.mode == DistributionMode::Portable && !root_exists && installed_has_data
    }
}

/// Whether a directory holds data: one of the files, or any picture file.
pub fn contains_wisp_data(managed_present: &Vec<bool>, image_files: usize) -> (r: bool)
    ensures
        r == ((exists|i: int| 0 <= i < managed_present@.len() && #[trigger] managed_present@[i])
            || image_files > 0),
{
    for i in 0..managed_present.len()
        invariant
            forall|j: int| 0 <= j < i ==> !(#[trigger] managed_present@[j]),
    {
        if managed_present[i] {
            return true;
        }
    }
    image_files > 0
}

/// The directory in which an import is put together, under a name that is not
/// used yet.
pub fn staging_name(process: u32, nonce: u128) -> (r: String)
    ensures
        r@ == ".data.importing-"@ + decimal(process as nat) + "-"@ + decimal(nonce as nat),
{
    let mut s = ".data.importing-".to_owned();
    push_decimal(&mut s, process as u128);
    s.push_str("-");
    push_decimal(&mut s, nonce);
    s
}

/// Whether a file is a picture by its name.
pub open spec fn is_png_name(name: Seq<char>) -> bool {
    extension_of(name) is Some && ascii_lower_all(extension_of(name)->0) == seq!['p', 'n', 'g']
}

/// The files among `names` that an import takes from the pictures directory:
/// the pictures.
pub fn images_to_import(names: &Vec<String>) -> (r: Vec<String>)
    ensures
        views(r@) == survivors(views(names@), |n: Seq<char>| is_png_name(n)),
{
    let ghost f = |n: Seq<char>| is_png_name(n);
    let ghost all = views(names@);
    let want: Vec<char> = vec!['p', 'n', 'g'];
    assert(want@ == seq!['p', 'n', 'g']);
    let mut out: Vec<String> = Vec::new();
    assert(all.take(0) == Seq::<Seq<char>>::empty());
    for i in 0..names.len()
        invariant
            f == |n: Seq<char>| is_png_name(n),
            all == views(names@),
            want@ == seq!['p', 'n', 'g'],
            views(out@) == survivors(all.take(i as int), f),
    {
        proof {
            assert(all[i as int] == names@[i as int]@);
            assert(all.take(i + 1).drop_last() == all.take(i as int));
        }
        let png = match extension(names[i].as_str()) {
            Some(ext) => {
                let v = chars_of(ext.as_str());
                let small = lower_chars(&v);
                same_chars(&small, &want)
            },
            None => false,
        };
        if png {
            let ghost before = views(out@);
            out.push(names[i].clone());
            assert(views(out@) == before.push(all[i as int]));
        }
    }
    assert(all.take(all.len() as int) == all);
    out
}

} // verus!
