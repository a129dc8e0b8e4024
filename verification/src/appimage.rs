//! The AppImage target.

use vstd::prelude::*;
use vstd::string::{StrSliceExecFns, StringExecFns};
use crate::conf::ShipConfig;
use crate::outside::host_path::{
    extension,
    file_name,
    join,
    path_extension,
    path_file_name,
    path_joined,
};
use crate::outside::text::char_text;
use crate::stream::{first_where, is_first, lemma_first_where};

verus! {

/// Produces the AppImage of a manifest.
pub struct AppImageGenerator<'a> {
    pub conf: &'a ShipConfig,
}

/// The text ends in `/`.
pub open spec fn ends_in_slash(text: Seq<char>) -> bool {
    text.len() > 0 && text.last() == '/'
}

/// Where the image is written to. An output path that ends in `.AppImage` is
/// the image itself. One that is a directory, on the host or by the `/` at its
/// end, gets the file of the installer's name in it. Any other is taken as the
/// image's path.
pub open spec fn appimage_output_path_of(
    out: Seq<char>,
    out_is_dir: bool,
    installer: Seq<char>,
) -> Seq<char> {
    if path_extension(out) == Some("AppImage"@) {
        out
    } else if out_is_dir || ends_in_slash(out) {
        path_joined(out, installer)
    } else {
        out
    }
}

/// The path is a regular file on the host. `is_file` holds the host's word for
/// each path, in their order; a path without one is no file.
pub open spec fn listed_file(is_file: Seq<bool>, i: int) -> bool {
    0 <= i < is_file.len() && is_file[i]
}

/// The path is a regular file on the host and has the given file name.
pub open spec fn named_file(paths: Seq<String>, is_file: Seq<bool>, name: Seq<char>, i: int) -> bool {
    listed_file(is_file, i) && 0 <= i < paths.len() && path_file_name(paths[i]@) == Some(name)
}

/// Where a file of the manifest goes in the image: into `usr/bin`, under its
/// file name. Nothing for a path without a file name.
pub open spec fn bundle_path_of(file: Seq<char>) -> Option<Seq<char>> {
    match path_file_name(file) {
        Some(name) => Some(path_joined(path_joined("usr"@, "bin"@), name)),
        None => None,
    }
}

impl<'a> AppImageGenerator<'a> {
    /// A generator for the manifest.
    pub fn new(conf: &'a ShipConfig) -> (generator: Self)
        ensures
            generator.conf == conf,
    {
        Self { conf }
    }

    /// `out_is_dir` is the host's word on the output path of the manifest.
    pub fn appimage_output_path(&self, out_is_dir: bool) -> (path: String)
        ensures
            path@ == appimage_output_path_of(
                self.conf.out.bin@,
                out_is_dir,
                self.conf.prog.installer_name_text(".AppImage"@),
            ),
    {
        let out = self.conf.out.bin.as_str();
        let is_image = match extension(out) {
            Some(found) => found == String::from_str("AppImage"),
            None => false,
        };
        if is_image {
            return self.conf.out.bin.clone();
        }
        let length = out.unicode_len();
        if out_is_dir || (length > 0 && out.get_char(length - 1) == '/') {
            let installer = self.conf.prog.installer_name(".AppImage");
            join(out, installer.as_str())
        } else {
            self.conf.out.bin.clone()
        }
    }

    /// The file that the image starts: the first regular file of the manifest
    /// that has the program's name, or, where none has, the first regular file.
    /// Nothing where the manifest lists no regular file.
    pub fn primary_file(&self, is_file: &Vec<bool>) -> (primary: Option<usize>)
        ensures
            match primary {
                Some(at) => {
                    let paths = self.conf.files.paths@;
                    let name = self.conf.prog.name@;
                    &&& at < paths.len()
                    &&& listed_file(is_file@, at as int)
                    &&& if named_file(paths, is_file@, name, at as int) {
                        forall|i: int| 0 <= i < at ==> !named_file(paths, is_file@, name, i)
                    } else {
                        &&& forall|i: int|
                            0 <= i < paths.len() ==> !named_file(paths, is_file@, name, i)
                        &&& forall|i: int| 0 <= i < at ==> !listed_file(is_file@, i)
                    }
                },
                None => forall|i: int|
                    0 <= i < self.conf.files.paths.len() ==> !listed_file(is_file@, i),
            },
    {
        let paths = &self.conf.files.paths;
        let mut first_file: Option<usize> = None;
        let mut at: usize = 0;
        while at < paths.len()
            invariant
                at <= paths.len(),
                paths == &self.conf.files.paths,
                forall|i: int|
                    0 <= i < at ==> !named_file(paths@, is_file@, self.conf.prog.name@, i),
                match first_file {
                    Some(first) => first < at && listed_file(is_file@, first as int) && forall|
                        i: int,
                    | 0 <= i < first ==> !listed_file(is_file@, i),
                    None => forall|i: int| 0 <= i < at ==> !listed_file(is_file@, i),
                },
            decreases paths.len() - at,
        {
            if at < is_file.len() && is_file[at] {
                let named = match file_name(paths[at].as_str()) {
                    Some(name) => name == self.conf.prog.name,
                    None => false,
                };
                if named {
                    return Some(at);
                }
                if first_file.is_none() {
                    first_file = Some(at);
                }
            }
            at += 1;
        }
        first_file
    }

    /// Where a file of the manifest goes in the image.
    pub fn bundle_path(&self, file: &str) -> (path: Option<String>)
        ensures
            match path {
                Some(text) => bundle_path_of(file@) == Some(text@),
                None => bundle_path_of(file@) is None,
            },
    {
        match file_name(file) {
            Some(name) => {
                let bin = join("usr", "bin");
                Some(join(bin.as_str(), name.as_str()))
            },
            None => None,
        }
    }
}

/// A letter of the alphabet of ASCII, or a digit.
pub open spec fn is_alphanumeric(c: char) -> bool {
    ('a' <= c && c <= 'z') || ('A' <= c && c <= 'Z') || ('0' <= c && c <= '9')
}

/// The capital of a small letter of ASCII, and any other character as it is.
pub open spec fn upper(c: char) -> char {
    if 'a' <= c && c <= 'z' {
        ((c as u8) - 32) as char
    } else {
        c
    }
}

/// `at` is the place of the first letter or digit of the name.
pub open spec fn is_first_alphanumeric(name: Seq<char>, at: int) -> bool {
    &&& 0 <= at < name.len()
    &&& is_alphanumeric(name[at])
    &&& forall|i: int| 0 <= i < at ==> !is_alphanumeric(#[trigger] name[i])
}

/// The letter that the icon shows: the first letter or digit of the name as a
/// capital, or `S` where the name has none.
pub open spec fn icon_initial_of(name: Seq<char>) -> char {
    match first_where(name.len() as int, |i: int| is_alphanumeric(name[i])) {
        Some(at) => upper(name[at]),
        None => 'S',
    }
}

/// The letter of the icon is that of the first place with a letter or digit.
pub proof fn lemma_icon_initial(name: Seq<char>)
    ensures
        forall|at: int| is_first_alphanumeric(name, at) ==> icon_initial_of(name) == upper(name[at]),
        (forall|i: int| 0 <= i < name.len() ==> !is_alphanumeric(#[trigger] name[i]))
            ==> icon_initial_of(name) == 'S',
{
    let wanted = |i: int| is_alphanumeric(name[i]);
    lemma_first_where(name.len() as int, wanted);
    assert forall|at: int| is_first_alphanumeric(name, at) implies is_first(
        name.len() as int,
        wanted,
        at,
    ) by {}
}

/// What the icon is drawn with before its letter, and after it.
pub open spec fn icon_head() -> Seq<char> {
    "<svg xmlns=\"http://www.w3.org/2000/svg\" width=\"256\" height=\"256\" viewBox=\"0 0 256 256\"><rect width=\"256\" height=\"256\" rx=\"36\" fill=\"#1f2937\"/><text x=\"50%\" y=\"56%\" dominant-baseline=\"middle\" text-anchor=\"middle\" font-family=\"sans-serif\" font-size=\"120\" fill=\"#f9fafb\">"@
}

/// What the icon is drawn with after its letter.
pub open spec fn icon_tail() -> Seq<char> {
    "</text></svg>"@
}

/// The letter that the icon of a program shows.
pub fn icon_initial(app_name: &str) -> (initial: char)
    ensures
        initial == icon_initial_of(app_name@),
{
    let length = app_name.unicode_len();
    let mut at: usize = 0;
    while at < length
        invariant
            at <= length,
            length == app_name@.len(),
            forall|i: int| 0 <= i < at ==> !is_alphanumeric(#[trigger] app_name@[i]),
        decreases length - at,
    {
        let c = app_name.get_char(at);
        if ('a' <= c && c <= 'z') {
            proof {
                assert(is_first_alphanumeric(app_name@, at as int));
                lemma_icon_initial(app_name@);
            }
            return ((c as u8) - 32) as char;
        }
        if ('A' <= c && c <= 'Z') || ('0' <= c && c <= '9') {
            proof {
                assert(is_first_alphanumeric(app_name@, at as int));
                lemma_icon_initial(app_name@);
            }
            return c;
        }
        at += 1;
    }
    proof {
        lemma_icon_initial(app_name@);
    }
    'S'
}

/// The icon of a program that brings none: a dark square with the program's
/// initial.
pub fn fallback_icon_svg(app_name: &str) -> (svg: String)
    ensures
        svg@ == icon_head() + seq![icon_initial_of(app_name@)] + icon_tail(),
{
    let initial = icon_initial(app_name);
    let mut svg = String::from_str(
        "<svg xmlns=\"http://www.w3.org/2000/svg\" width=\"256\" height=\"256\" viewBox=\"0 0 256 256\"><rect width=\"256\" height=\"256\" rx=\"36\" fill=\"#1f2937\"/><text x=\"50%\" y=\"56%\" dominant-baseline=\"middle\" text-anchor=\"middle\" font-family=\"sans-serif\" font-size=\"120\" fill=\"#f9fafb\">",
    );
    svg.append(char_text(initial).as_str());
    svg.append("</text></svg>");
    svg
}

} // verus!
