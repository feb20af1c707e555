use cretonne::settings::detail::{Descriptor, Detail, Template};
use cretonne::settings::{builder, Builder, Configurable, Error, Flags, OptLevel};

#[test]
fn shared_display_default() {
    let f = Flags::new(builder());
    assert_eq!(
        f.to_string(),
        "[shared]\n\
         opt_level = \"default\"\n\
         is_64bit = false\n\
         enable_float = true\n\
         enable_simd = true\n\
         enable_atomics = true\n"
    );
    assert_eq!(f.opt_level(), OptLevel::Default);
    assert_eq!(f.enable_simd(), true);
    assert_eq!(f.is_64bit(), false);
    assert_eq!(f.enable_float(), true);
    assert_eq!(f.enable_atomics(), true);
}

#[test]
fn shared_modify_bool() {
    let mut b = builder();
    assert_eq!(b.set_bool("not_there", true), Err(Error::BadName));
    assert_eq!(b.set_bool("enable_simd", true), Ok(()));
    assert_eq!(b.set_bool("enable_simd", false), Ok(()));
    assert_eq!(b.set_bool("opt_level", true), Err(Error::BadType));
    assert_eq!(b.set_bool("is_64bit", true), Ok(()));

    let f = Flags::new(b);
    assert_eq!(f.enable_simd(), false);
    assert_eq!(f.is_64bit(), true);
    assert_eq!(f.enable_float(), true);
    assert_eq!(f.enable_atomics(), true);
}

#[test]
fn shared_modify_string() {
    let mut b = builder();
    assert_eq!(b.set("not_there", "true"), Err(Error::BadName));
    assert_eq!(b.set("enable_simd", ""), Err(Error::BadValue));
    assert_eq!(b.set("enable_simd", "best"), Err(Error::BadValue));
    assert_eq!(b.set("opt_level", "true"), Err(Error::BadValue));
    assert_eq!(b.set("opt_level", "best"), Ok(()));
    assert_eq!(b.set("enable_simd", "0"), Ok(()));
    assert_eq!(b.set("enable_atomics", "no"), Ok(()));

    let f = Flags::new(b);
    assert_eq!(f.enable_simd(), false);
    assert_eq!(f.enable_atomics(), false);
    assert_eq!(f.opt_level(), OptLevel::Best);
    assert_eq!(
        f.to_string(),
        "[shared]\nopt_level = \"best\"\nis_64bit = false\nenable_float = true\nenable_simd = false\nenable_atomics = false\n"
    );
}

#[test]
fn shared_opt_level_fastest() {
    let mut b = builder();
    assert_eq!(b.set("opt_level", "fastest"), Ok(()));
    let f = Flags::new(b);
    assert_eq!(f.opt_level(), OptLevel::Fastest);
}

fn numeric_template() -> Template {
    Template {
        name: "test".to_string(),
        descriptors: vec![
            Descriptor {
                name: "level".to_string(),
                offset: 0,
                detail: Detail::Num,
            },
            Descriptor {
                name: "mode".to_string(),
                offset: 1,
                detail: Detail::Enum {
                    last: 1,
                    enumerators: 0,
                },
            },
            Descriptor {
                name: "on".to_string(),
                offset: 2,
                detail: Detail::Bool { bit: 7 },
            },
        ],
        enumerators: vec!["slow".to_string(), "quick".to_string()],
        defaults: vec![7, 5, 0],
    }
}

#[test]
fn numeric_settings() {
    let mut b = Builder::new(numeric_template());
    assert_eq!(b.set("level", "42"), Ok(()));
    assert_eq!(b.state_for("test"), &[42, 5, 0]);
    assert_eq!(b.set("level", "+007"), Ok(()));
    assert_eq!(b.state_for("test"), &[7, 5, 0]);
    assert_eq!(b.set("level", "255"), Ok(()));
    assert_eq!(b.state_for("test"), &[255, 5, 0]);
    assert_eq!(b.set("level", "256"), Err(Error::BadValue));
    assert_eq!(b.set("level", "-1"), Err(Error::BadValue));
    assert_eq!(b.set("level", "+"), Err(Error::BadValue));
    assert_eq!(b.set("level", ""), Err(Error::BadValue));
    assert_eq!(b.set("level", "1x"), Err(Error::BadValue));
    assert_eq!(b.set("level", "99999999999"), Err(Error::BadValue));
    assert_eq!(b.set_bool("level", true), Err(Error::BadType));
    assert_eq!(b.state_for("test"), &[255, 5, 0]);
    assert_eq!(b.set("mode", "quick"), Ok(()));
    assert_eq!(b.set("mode", "medium"), Err(Error::BadValue));
    assert_eq!(b.set("on", "true"), Ok(()));
    assert_eq!(b.state_for("test"), &[255, 1, 0x80]);
    assert_eq!("255".parse::<u8>(), Ok(255));
    assert!("+".parse::<u8>().is_err());
}

#[test]
fn enum_value_out_of_range_prints_as_number() {
    let t = numeric_template();
    let mut out = String::new();
    t.format_toml_value(Detail::Enum { last: 1, enumerators: 0 }, 5, &mut out);
    assert_eq!(out, "5");
    let mut out = String::new();
    t.format_toml_value(Detail::Enum { last: 1, enumerators: 0 }, 1, &mut out);
    assert_eq!(out, "\"quick\"");
    assert_eq!(t.format_group(&[12, 0, 0x80]), "[test]\nlevel = 12\nmode = \"slow\"\non = true\n");
}
