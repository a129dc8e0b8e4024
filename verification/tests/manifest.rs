use ship::appimage::{fallback_icon_svg, icon_initial, AppImageGenerator};
use ship::cli::Cli;
use ship::conf::{default_bin_dir, Arch, Files, Out, Prog, ShipConfig, Target};
use ship::deb::DebGenerator;
use ship::links::FileStatus;

fn config(name: &str, version: Option<&str>, arch: Arch, paths: &[&str], bin: &str) -> ShipConfig {
    ShipConfig {
        prog: Prog {
            name: name.to_string(),
            author: "Somebody <somebody@example.com>".to_string(),
            arch,
            version: version.map(|v| v.to_string()),
            description: None,
        },
        files: Files {
            paths: paths.iter().map(|p| p.to_string()).collect(),
            icon: None,
            license: None,
        },
        build: None,
        out: Out { targets: vec![Target::Deb, Target::AppImage], bin: bin.to_string() },
        vars: None,
        scripts: None,
    }
}

fn all_archs() -> Vec<Arch> {
    vec![
        Arch::All,
        Arch::Alpha,
        Arch::Armel,
        Arch::Armhf,
        Arch::Arm64,
        Arch::Hppa,
        Arch::I386,
        Arch::Amd64,
        Arch::Ia64,
        Arch::M68k,
        Arch::Mips,
        Arch::Mipsel,
        Arch::Mips64el,
        Arch::PowerPC,
        Arch::Ppc64,
        Arch::Ppc64el,
        Arch::Riscv64,
        Arch::S390x,
        Arch::Sh4,
        Arch::Sparc4,
        Arch::X32,
        Arch::HurdI386,
        Arch::KFreebsdI386,
        Arch::KFreebsdAmd64,
    ]
}

#[test]
fn default_bin_dir_is_bin() {
    assert_eq!(default_bin_dir(), "./bin/");
}

#[test]
fn arch_names_are_the_variants_in_small_letters() {
    for arch in all_archs() {
        assert_eq!(arch.lower_name(), format!("{:?}", arch).to_lowercase());
    }
    assert_eq!(Arch::PowerPC.lower_name(), "powerpc");
    assert_eq!(Arch::KFreebsdAmd64.lower_name(), "kfreebsdamd64");
}

#[test]
fn arch_maps_to_the_debian_architecture_of_its_name() {
    for arch in all_archs() {
        assert_eq!(format!("{:?}", arch.deb()), format!("{:?}", arch));
    }
    assert_eq!(Arch::Amd64.deb(), deb_rust::DebArchitecture::Amd64);
    assert_eq!(Arch::Amd64.deb().as_str(), "amd64");
    assert_eq!(Arch::HurdI386.deb().as_str(), "hurd-i386");
}

#[test]
fn installer_name_has_name_version_and_arch() {
    let conf = config("demo", Some("1.2.3"), Arch::Amd64, &[], "./bin/");
    assert_eq!(conf.prog.installer_name(".deb"), "demo_1.2.3_amd64.deb");
    assert_eq!(conf.prog.installer_name(".AppImage"), "demo_1.2.3_amd64.AppImage");
    let conf = config("demo", None, Arch::Arm64, &[], "./bin/");
    assert_eq!(conf.prog.installer_name(".deb"), "demo_arm64.deb");
    let conf = config("", Some(""), Arch::All, &[], "./bin/");
    assert_eq!(conf.prog.installer_name(""), "__all");
}

#[test]
fn generators_keep_their_manifest() {
    let conf = config("demo", None, Arch::Amd64, &["./a"], "./bin/");
    assert_eq!(DebGenerator::new(&conf).conf, &conf);
    assert_eq!(AppImageGenerator::new(&conf).conf, &conf);
}

#[test]
fn files_are_installed_below_opt() {
    let conf = config("demo", None, Arch::Amd64, &[], "./bin/");
    let generator = DebGenerator::new(&conf);
    assert_eq!(generator.installed_path("./build/app"), "/opt/demo/build/app");
    assert_eq!(generator.installed_path("build/app"), "/opt/demo/build/app");
    assert_eq!(generator.installed_path("././app"), "/opt/demo/./app");
    assert_eq!(generator.installed_path("./"), "/opt/demo/");
    assert_eq!(generator.installed_path("."), "/opt/demo/.");
    assert_eq!(generator.installed_path(""), "/opt/demo/");
    assert_eq!(generator.installed_path("/abs/app"), "/opt/demo//abs/app");
}

#[test]
fn file_entries_pair_paths_with_statuses() {
    let conf = config("demo", None, Arch::Amd64, &["./app", "docs", "late"], "./bin/");
    let statuses = vec![
        Some(FileStatus { is_file: true, mode: 0o755 }),
        Some(FileStatus { is_file: false, mode: 0o755 }),
    ];
    let files = DebGenerator::new(&conf).file_entries(&statuses);
    assert_eq!(files.len(), 3);
    assert_eq!(files[0].source_path, "./app");
    assert_eq!(files[0].installed_path, "/opt/demo/app");
    assert_eq!(files[0].status, statuses[0]);
    assert_eq!(files[1].source_path, "docs");
    assert_eq!(files[1].installed_path, "/opt/demo/docs");
    assert_eq!(files[1].status, statuses[1]);
    assert_eq!(files[2].source_path, "late");
    assert_eq!(files[2].status, None);
}

#[test]
fn deb_output_path_names_the_package() {
    let conf = config("demo", Some("1.0"), Arch::Amd64, &[], "./bin/");
    assert_eq!(DebGenerator::new(&conf).deb_output_path(), "./bin/demo_1.0_amd64.deb");
    let conf = config("demo", Some("1.0"), Arch::Amd64, &[], "out");
    assert_eq!(DebGenerator::new(&conf).deb_output_path(), "out/demo_1.0_amd64.deb");
    let conf = config("demo", Some("1.0"), Arch::Amd64, &[], "out/pkg.deb");
    assert_eq!(DebGenerator::new(&conf).deb_output_path(), "out/pkg.deb");
    let conf = config("demo", None, Arch::I386, &[], "out/pkg.DEB");
    assert_eq!(DebGenerator::new(&conf).deb_output_path(), "out/pkg.DEB/demo_i386.deb");
    let conf = config("demo", None, Arch::I386, &[], ".deb");
    assert_eq!(DebGenerator::new(&conf).deb_output_path(), ".deb/demo_i386.deb");
}

#[test]
fn appimage_output_path_names_the_image() {
    let conf = config("demo", Some("1.0"), Arch::Amd64, &[], "out/demo.AppImage");
    let generator = AppImageGenerator::new(&conf);
    assert_eq!(generator.appimage_output_path(false), "out/demo.AppImage");
    assert_eq!(generator.appimage_output_path(true), "out/demo.AppImage");
    let conf = config("demo", Some("1.0"), Arch::Amd64, &[], "./bin/");
    let generator = AppImageGenerator::new(&conf);
    assert_eq!(generator.appimage_output_path(false), "./bin/demo_1.0_amd64.AppImage");
    let conf = config("demo", None, Arch::Amd64, &[], "out");
    let generator = AppImageGenerator::new(&conf);
    assert_eq!(generator.appimage_output_path(true), "out/demo_amd64.AppImage");
    assert_eq!(generator.appimage_output_path(false), "out");
    let conf = config("demo", None, Arch::Amd64, &[], "");
    assert_eq!(AppImageGenerator::new(&conf).appimage_output_path(false), "");
}

#[test]
fn primary_file_is_the_one_named_like_the_program() {
    let conf = config("demo", None, Arch::Amd64, &["lib", "bin/tool", "bin/demo", "x/demo"], "o");
    let generator = AppImageGenerator::new(&conf);
    assert_eq!(generator.primary_file(&vec![false, true, true, true]), Some(2));
    assert_eq!(generator.primary_file(&vec![false, true, false, true]), Some(3));
    assert_eq!(generator.primary_file(&vec![false, true, false, false]), Some(1));
    assert_eq!(generator.primary_file(&vec![true, true, false, false]), Some(0));
    assert_eq!(generator.primary_file(&vec![false, false, false, false]), None);
    assert_eq!(generator.primary_file(&vec![false, true]), Some(1));
    assert_eq!(generator.primary_file(&Vec::new()), None);
    assert_eq!(generator.primary_file(&vec![false, false, true, true, true]), Some(2));
}

#[test]
fn bundle_path_is_in_usr_bin() {
    let conf = config("demo", None, Arch::Amd64, &[], "o");
    let generator = AppImageGenerator::new(&conf);
    assert_eq!(generator.bundle_path("build/app"), Some("usr/bin/app".to_string()));
    assert_eq!(generator.bundle_path("assets/"), Some("usr/bin/assets".to_string()));
    assert_eq!(generator.bundle_path(".."), None);
    assert_eq!(generator.bundle_path("/"), None);
}

#[test]
fn icon_shows_the_initial() {
    assert_eq!(icon_initial("demo"), 'D');
    assert_eq!(icon_initial("Demo"), 'D');
    assert_eq!(icon_initial("--9lives"), '9');
    assert_eq!(icon_initial("\u{e9}a"), 'A');
    assert_eq!(icon_initial(""), 'S');
    assert_eq!(icon_initial("+-*/"), 'S');
    assert_eq!(icon_initial("z"), 'Z');
    assert_eq!(
        fallback_icon_svg("demo"),
        "<svg xmlns=\"http://www.w3.org/2000/svg\" width=\"256\" height=\"256\" viewBox=\"0 0 256 256\">\
         <rect width=\"256\" height=\"256\" rx=\"36\" fill=\"#1f2937\"/>\
         <text x=\"50%\" y=\"56%\" dominant-baseline=\"middle\" text-anchor=\"middle\" \
         font-family=\"sans-serif\" font-size=\"120\" fill=\"#f9fafb\">D</text>\
         </svg>"
    );
    assert!(fallback_icon_svg("").contains(">S</text>"));
}

#[test]
fn cli_holds_its_options() {
    let cli = Cli { config: "ship.toml".to_string(), dry_run: true };
    assert_eq!(cli.config, "ship.toml");
    assert!(cli.dry_run);
}
