//! The manifest: what is shipped, for which architecture, and where to.

use vstd::prelude::*;
use vstd::string::StringExecFns;

verus! {

/// The machine architectures a package can be built for, as Debian knows them.
#[verifier::external_type_specification]
pub struct ExDebArchitecture(deb_rust::DebArchitecture);

/// The program that is shipped.
#[derive(Clone, PartialEq, Eq, Debug)]
pub struct Prog {
    pub name: String,
    pub author: String,
    pub arch: Arch,
    pub version: Option<String>,
    pub description: Option<String>,
}

/// The architecture the program was built for.
#[derive(Clone, Copy, PartialEq, Eq, Debug, Structural)]
pub enum Arch {
    All,
    Alpha,
    Armel,
    Armhf,
    Arm64,
    Hppa,
    I386,
    Amd64,
    Ia64,
    M68k,
    Mips,
    Mipsel,
    Mips64el,
    PowerPC,
    Ppc64,
    Ppc64el,
    Riscv64,
    S390x,
    Sh4,
    Sparc4,
    X32,
    HurdI386,
    KFreebsdI386,
    KFreebsdAmd64,
}

impl Arch {
    /// The Debian architecture that stands for this one: the one of the same name.
    pub open spec fn deb_arch(self) -> deb_rust::DebArchitecture {
        match self {
            Arch::All => deb_rust::DebArchitecture::All,
            Arch::Alpha => deb_rust::DebArchitecture::Alpha,
            Arch::Armel => deb_rust::DebArchitecture::Armel,
            Arch::Armhf => deb_rust::DebArchitecture::Armhf,
            Arch::Arm64 => deb_rust::DebArchitecture::Arm64,
            Arch::Hppa => deb_rust::DebArchitecture::Hppa,
            Arch::I386 => deb_rust::DebArchitecture::I386,
            Arch::Amd64 => deb_rust::DebArchitecture::Amd64,
            Arch::Ia64 => deb_rust::DebArchitecture::Ia64,
            Arch::M68k => deb_rust::DebArchitecture::M68k,
            Arch::Mips => deb_rust::DebArchitecture::Mips,
            Arch::Mipsel => deb_rust::DebArchitecture::Mipsel,
            Arch::Mips64el => deb_rust::DebArchitecture::Mips64el,
            Arch::PowerPC => deb_rust::DebArchitecture::PowerPC,
            Arch::Ppc64 => deb_rust::DebArchitecture::Ppc64,
            Arch::Ppc64el => deb_rust::DebArchitecture::Ppc64el,
            Arch::Riscv64 => deb_rust::DebArchitecture::Riscv64,
            Arch::S390x => deb_rust::DebArchitecture::S390x,
            Arch::Sh4 => deb_rust::DebArchitecture::Sh4,
            Arch::Sparc4 => deb_rust::DebArchitecture::Sparc4,
            Arch::X32 => deb_rust::DebArchitecture::X32,
            Arch::HurdI386 => deb_rust::DebArchitecture::HurdI386,
            Arch::KFreebsdI386 => deb_rust::DebArchitecture::KFreebsdI386,
            Arch::KFreebsdAmd64 => deb_rust::DebArchitecture::KFreebsdAmd64,
        }
    }

    /// The name of the architecture in file names: its name in small letters.
    pub open spec fn lower_name_text(self) -> Seq<char> {
        match self {
            Arch::All => "all"@,
            Arch::Alpha => "alpha"@,
            Arch::Armel => "armel"@,
            Arch::Armhf => "armhf"@,
            Arch::Arm64 => "arm64"@,
            Arch::Hppa => "hppa"@,
            Arch::I386 => "i386"@,
            Arch::Amd64 => "amd64"@,
            Arch::Ia64 => "ia64"@,
            Arch::M68k => "m68k"@,
            Arch::Mips => "mips"@,
            Arch::Mipsel => "mipsel"@,
            Arch::Mips64el => "mips64el"@,
            Arch::PowerPC => "powerpc"@,
            Arch::Ppc64 => "ppc64"@,
            Arch::Ppc64el => "ppc64el"@,
            Arch::Riscv64 => "riscv64"@,
            Arch::S390x => "s390x"@,
            Arch::Sh4 => "sh4"@,
            Arch::Sparc4 => "sparc4"@,
            Arch::X32 => "x32"@,
            Arch::HurdI386 => "hurdi386"@,
            Arch::KFreebsdI386 => "kfreebsdi386"@,
            Arch::KFreebsdAmd64 => "kfreebsdamd64"@,
        }
    }

    /// The name of the architecture as it stands in the names of installers.
    pub fn lower_name(&self) -> (name: &'static str)
        ensures
            name@ == self.lower_name_text(),
    {
        match self {
            Arch::All => "all",
            Arch::Alpha => "alpha",
            Arch::Armel => "armel",
            Arch::Armhf => "armhf",
            Arch::Arm64 => "arm64",
            Arch::Hppa => "hppa",
            Arch::I386 => "i386",
            Arch::Amd64 => "amd64",
            Arch::Ia64 => "ia64",
            Arch::M68k => "m68k",
            Arch::Mips => "mips",
            Arch::Mipsel => "mipsel",
            Arch::Mips64el => "mips64el",
            Arch::PowerPC => "powerpc",
            Arch::Ppc64 => "ppc64",
            Arch::Ppc64el => "ppc64el",
            Arch::Riscv64 => "riscv64",
            Arch::S390x => "s390x",
            Arch::Sh4 => "sh4",
            Arch::Sparc4 => "sparc4",
            Arch::X32 => "x32",
            Arch::HurdI386 => "hurdi386",
            Arch::KFreebsdI386 => "kfreebsdi386",
            Arch::KFreebsdAmd64 => "kfreebsdamd64",
        }
    }

    /// The architecture as the Debian packaging takes it.
    pub fn deb(&self) -> (arch: deb_rust::DebArchitecture)
        ensures
            arch == self.deb_arch(),
    {
        match self {
            Arch::All => deb_rust::DebArchitecture::All,
            Arch::Alpha => deb_rust::DebArchitecture::Alpha,
            Arch::Armel => deb_rust::DebArchitecture::Armel,
            Arch::Armhf => deb_rust::DebArchitecture::Armhf,
            Arch::Arm64 => deb_rust::DebArchitecture::Arm64,
            Arch::Hppa => deb_rust::DebArchitecture::Hppa,
            Arch::I386 => deb_rust::DebArchitecture::I386,
            Arch::Amd64 => deb_rust::DebArchitecture::Amd64,
            Arch::Ia64 => deb_rust::DebArchitecture::Ia64,
            Arch::M68k => deb_rust::DebArchitecture::M68k,
            Arch::Mips => deb_rust::DebArchitecture::Mips,
            Arch::Mipsel => deb_rust::DebArchitecture::Mipsel,
            Arch::Mips64el => deb_rust::DebArchitecture::Mips64el,
            Arch::PowerPC => deb_rust::DebArchitecture::PowerPC,
            Arch::Ppc64 => deb_rust::DebArchitecture::Ppc64,
            Arch::Ppc64el => deb_rust::DebArchitecture::Ppc64el,
            Arch::Riscv64 => deb_rust::DebArchitecture::Riscv64,
            Arch::S390x => deb_rust::DebArchitecture::S390x,
            Arch::Sh4 => deb_rust::DebArchitecture::Sh4,
            Arch::Sparc4 => deb_rust::DebArchitecture::Sparc4,
            Arch::X32 => deb_rust::DebArchitecture::X32,
            Arch::HurdI386 => deb_rust::DebArchitecture::HurdI386,
            Arch::KFreebsdI386 => deb_rust::DebArchitecture::KFreebsdI386,
            Arch::KFreebsdAmd64 => deb_rust::DebArchitecture::KFreebsdAmd64,
        }
    }
}

impl Prog {
    /// The file name of an installer of the program: its name, its version
    /// where it has one, its architecture and the suffix of the kind of
    /// installer, with `_` between them.
    pub open spec fn installer_name_text(self, suffix: Seq<char>) -> Seq<char> {
        self.name@ + self.version_text() + "_"@ + self.arch.lower_name_text() + suffix
    }

    /// The version as it stands in a file name: after a `_`, or not at all.
    pub open spec fn version_text(self) -> Seq<char> {
        match self.version {
            Some(version) => "_"@ + version@,
            None => Seq::empty(),
        }
    }

    /// The file name of an installer with the given suffix.
    pub fn installer_name(&self, suffix: &str) -> (file_name: String)
        ensures
            file_name@ == self.installer_name_text(suffix@),
    {
        let mut file_name = self.name.clone();
        match &self.version {
            Some(version) => {
                file_name.append("_");
                file_name.append(version.as_str());
            },
            None => {},
        }
        file_name.append("_");
        file_name.append(self.arch.lower_name());
        file_name.append(suffix);
        file_name
    }
}

/// What goes into the installers.
#[derive(Clone, PartialEq, Eq, Debug)]
pub struct Files {
    pub paths: Vec<String>,
    pub icon: Option<String>,
    pub license: Option<String>,
}

/// How the program is built before it is packaged.
#[derive(Clone, PartialEq, Eq, Debug)]
pub struct Build {
    pub cmd: Option<String>,
    pub cwd: Option<String>,
}

/// The kinds of installer.
#[derive(Clone, Copy, PartialEq, Eq, Debug, Structural)]
pub enum Target {
    Exe,
    Msi,
    Dmg,
    Pkg,
    Deb,
    AppImage,
    Rpm,
}

/// Which installers to produce, and where.
#[derive(Clone, PartialEq, Eq, Debug)]
pub struct Out {
    pub targets: Vec<Target>,
    pub bin: String,
}

/// The text of the directory that installers are written to when the manifest
/// names none.
pub open spec fn default_bin_dir_text() -> Seq<char> {
    "./bin/"@
}

/// The directory that installers are written to when the manifest names none.
pub fn default_bin_dir() -> (dir: String)
    ensures
        dir@ == default_bin_dir_text(),
{
    String::from_str("./bin/")
}

/// Variables handed to the build.
#[derive(Clone, PartialEq, Eq, Debug)]
pub struct Vars {
    pub env: Option<Vec<String>>,
    pub arg: Option<Vec<String>>,
    pub cmake: Option<Vec<String>>,
}

/// Scripts that run around an installation.
#[derive(Clone, PartialEq, Eq, Debug)]
pub struct Scripts {
    pub preinstall: Option<String>,
    pub postinstall: Option<String>,
}

/// The whole manifest.
#[derive(Clone, PartialEq, Eq, Debug)]
pub struct ShipConfig {
    pub prog: Prog,
    pub files: Files,
    pub build: Option<Build>,
    pub out: Out,
    pub vars: Option<Vars>,
    pub scripts: Option<Scripts>,
}

} // verus!
