//! The Debian package target.

use vstd::prelude::*;
use vstd::string::{StrSliceExecFns, StringExecFns};
use crate::conf::ShipConfig;
use crate::links::{FileEntry, FileStatus};
use crate::outside::host_path::{extension, join, path_extension, path_joined};

verus! {

/// Produces the Debian package of a manifest.
pub struct DebGenerator<'a> {
    pub conf: &'a ShipConfig,
}

/// The path without `./` at its start.
pub open spec fn without_dot_slash(path: Seq<char>) -> Seq<char> {
    if path.len() >= 2 && path[0] == '.' && path[1] == '/' {
        path.subrange(2, path.len() as int)
    } else {
        path
    }
}

/// Where a file of the manifest is installed to: under `/opt`, in the
/// directory of the program, at its own path.
pub open spec fn installed_path_of(program: Seq<char>, file: Seq<char>) -> Seq<char> {
    "/opt/"@ + program + "/"@ + without_dot_slash(file)
}

/// Where the package is written to: the output path of the manifest where it
/// ends in `.deb`, and else the file of the installer's name in it.
pub open spec fn deb_output_path_of(out: Seq<char>, installer: Seq<char>) -> Seq<char> {
    if path_extension(out) == Some("deb"@) {
        out
    } else {
        path_joined(out, installer)
    }
}

impl<'a> DebGenerator<'a> {
    /// A generator for the manifest.
    pub fn new(conf: &'a ShipConfig) -> (generator: Self)
        ensures
            generator.conf == conf,
    {
        Self { conf }
    }

    /// Where a file of the manifest is installed to.
    pub fn installed_path(&self, file: &str) -> (path: String)
        ensures
            path@ == installed_path_of(self.conf.prog.name@, file@),
    {
        let length = file.unicode_len();
        let rest = if length >= 2 && file.get_char(0) == '.' && file.get_char(1) == '/' {
            file.substring_char(2, length)
        } else {
            file
        };
        let mut path = String::from_str("/opt/");
        path.append(self.conf.prog.name.as_str());
        path.append("/");
        path.append(rest);
        path
    }

    /// The files of the manifest, each with where it is installed to and with
    /// what the host says of it. `statuses` holds the host's word for each path
    /// of the manifest, in their order; a path without one counts as one of
    /// which the host could not say anything.
    pub fn file_entries(&self, statuses: &Vec<Option<FileStatus>>) -> (files: Vec<FileEntry>)
        ensures
            files.len() == self.conf.files.paths.len(),
            forall|i: int|
                0 <= i < files.len() ==> {
                    &&& (#[trigger] files[i]).source_path@ == self.conf.files.paths[i]@
                    &&& files[i].installed_path@ == installed_path_of(
                        self.conf.prog.name@,
                        self.conf.files.paths[i]@,
                    )
                    &&& files[i].status == (if i < statuses.len() {
                        statuses[i]
                    } else {
                        None
                    })
                },
    {
        let mut files: Vec<FileEntry> = Vec::new();
        let mut at: usize = 0;
        while at < self.conf.files.paths.len()
            invariant
                at <= self.conf.files.paths.len(),
                files.len() == at,
                forall|i: int|
                    0 <= i < at ==> {
                        &&& (#[trigger] files[i]).source_path@ == self.conf.files.paths[i]@
                        &&& files[i].installed_path@ == installed_path_of(
                            self.conf.prog.name@,
                            self.conf.files.paths[i]@,
                        )
                        &&& files[i].status == (if i < statuses.len() {
                            statuses[i]
                        } else {
                            None
                        })
                    },
            decreases self.conf.files.paths.len() - at,
        {
            let source = &self.conf.files.paths[at];
            let status = if at < statuses.len() {
                statuses[at]
            } else {
                None
            };
            files.push(
                FileEntry {
                    source_path: source.clone(),
                    installed_path: self.installed_path(source.as_str()),
                    status,
                },
            );
            at += 1;
        }
        files
    }

    /// Where the package is written to.
    pub fn deb_output_path(&self) -> (path: String)
        ensures
            path@ == deb_output_path_of(
                self.conf.out.bin@,
                self.conf.prog.installer_name_text(".deb"@),
            ),
    {
        let out = self.conf.out.bin.as_str();
        let ends_in_deb = match extension(out) {
            Some(found) => found == String::from_str("deb"),
            None => false,
        };
        if ends_in_deb {
            self.conf.out.bin.clone()
        } else {
            let installer = self.conf.prog.installer_name(".deb");
            join(out, installer.as_str())
        }
    }
}

} // verus!
