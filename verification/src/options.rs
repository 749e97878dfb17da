//! The configuration the components read: one record per command, a shared
//! accessor trait, and the derived display switches.

use crate::bytes::subrange_vec;
use vstd::prelude::*;

verus! {

/// The assembly syntax styles the tool can ask the compiler for.
#[derive(Copy, Clone, Debug)]
pub enum Style {
    Intel,
    ATT,
}

/// The build profile the inspected output comes from.
#[derive(Copy, Clone, Debug)]
pub enum BuildType {
    Debug,
    Release,
}

/// Options of an assembly inspection.
#[allow(non_snake_case)]
#[derive(Debug)]
pub struct Asm {
    pub path: Option<Vec<u8>>,
    pub TRIPLE: Option<Vec<u8>>,
    pub no_color: bool,
    pub asm_style: Style,
    pub build_type: BuildType,
    pub features: Vec<Vec<u8>>,
    pub example: Option<Vec<u8>>,
    pub rust: bool,
    pub comments: bool,
    pub directives: bool,
    pub json: bool,
    pub debug_mode: bool,
    pub manifest_path: Option<Vec<u8>>,
    pub debug_info: bool,
    pub lib: bool,
    pub no_default_features: bool,
}

/// Options of an intermediate-representation inspection.
#[allow(non_snake_case)]
#[derive(Debug)]
pub struct LlvmIr {
    pub path: Option<Vec<u8>>,
    pub TRIPLE: Option<Vec<u8>>,
    pub features: Vec<Vec<u8>>,
    pub example: Option<Vec<u8>>,
    pub no_color: bool,
    pub build_type: BuildType,
    pub rust: bool,
    pub debug_mode: bool,
    pub manifest_path: Option<Vec<u8>>,
    pub lib: bool,
    pub no_default_features: bool,
}

/// Either command's options.
#[derive(Debug)]
pub enum Options {
    Asm(Asm),
    LlvmIr(LlvmIr),
}

/// Copies an optional byte string.
fn clone_opt_bytes(v: &Option<Vec<u8>>) -> (r: Option<Vec<u8>>)
    ensures
        match v {
            Some(b) => r matches Some(c) && c@ == b@,
            None => r is None,
        },
{
    match v {
        Some(b) => {
            let c = subrange_vec(b.as_slice(), 0, b.len());
            proof {
                assert(c@ =~= b@);
            }
            Some(c)
        },
        None => None,
    }
}

/// The accessors both commands share.
pub trait Ext {
    #[allow(non_snake_case)]
    fn TRIPLE(&self) -> Option<Vec<u8>>;

    fn path(&self) -> Option<Vec<u8>>;

    fn no_color(&self) -> bool;

    fn asm_style(&self) -> Option<Style>;

    fn build_type(&self) -> BuildType;

    fn rust(&self) -> bool;

    fn comments(&self) -> Option<bool>;

    fn directives(&self) -> Option<bool>;

    fn json(&self) -> bool;

    fn debug_mode(&self) -> bool;

    fn manifest_path(&self) -> Option<Vec<u8>>;

    fn use_colors(&self) -> bool;

    fn print_comments(&self) -> bool;

    fn print_directives(&self) -> bool;

    fn set_rust(&mut self, value: bool);

    fn features(&self) -> Vec<Vec<u8>>;

    fn example(&self) -> Option<Vec<u8>>;

    fn lib(&self) -> bool;

    fn no_default_features(&self) -> bool;
}

impl Ext for Options {
    fn path(&self) -> Option<Vec<u8>> {
        match self {
            Options::Asm(o) => clone_opt_bytes(&o.path),
            Options::LlvmIr(o) => clone_opt_bytes(&o.path),
        }
    }

    #[allow(non_snake_case)]
    fn TRIPLE(&self) -> Option<Vec<u8>> {
        match self {
            Options::Asm(o) => clone_opt_bytes(&o.TRIPLE),
            Options::LlvmIr(o) => clone_opt_bytes(&o.TRIPLE),
        }
    }

    fn no_color(&self) -> bool {
        match self {
            Options::Asm(o) => o.no_color,
            Options::LlvmIr(o) => o.no_color,
        }
    }

    fn asm_style(&self) -> Option<Style> {
        match self {
            Options::Asm(o) => Some(o.asm_style),
            Options::LlvmIr(_) => None,
        }
    }

    fn build_type(&self) -> BuildType {
        match self {
            Options::Asm(o) => o.build_type,
            Options::LlvmIr(o) => o.build_type,
        }
    }

    fn rust(&self) -> bool {
        match self {
            Options::Asm(o) => o.rust,
            Options::LlvmIr(o) => o.rust,
        }
    }

    fn comments(&self) -> Option<bool> {
        match self {
            Options::Asm(o) => Some(o.comments),
            Options::LlvmIr(_) => None,
        }
    }

    fn directives(&self) -> Option<bool> {
        match self {
            Options::Asm(o) => Some(o.directives),
            Options::LlvmIr(_) => None,
        }
    }

    fn json(&self) -> bool {
        match self {
            Options::Asm(o) => o.json,
            Options::LlvmIr(_) => false,
        }
    }

    fn debug_mode(&self) -> bool {
        match self {
            Options::Asm(o) => o.debug_mode,
            Options::LlvmIr(o) => o.debug_mode,
        }
    }

    fn manifest_path(&self) -> Option<Vec<u8>> {
        match self {
            Options::Asm(o) => clone_opt_bytes(&o.manifest_path),
            Options::LlvmIr(o) => clone_opt_bytes(&o.manifest_path),
        }
    }

    fn use_colors(&self) -> bool {
        !self.no_color()
    }

    fn print_comments(&self) -> bool {
        if self.debug_mode() {
            true
        } else {
            match self.comments() {
                Some(c) => c,
                None => false,
            }
        }
    }

    fn print_directives(&self) -> bool {
        if self.debug_mode() {
            true
        } else {
            match self.directives() {
                Some(d) => d,
                None => false,
            }
        }
    }

    fn set_rust(&mut self, value: bool) {
        match self {
            Options::Asm(o) => {
                o.rust = value;
            },
            Options::LlvmIr(o) => {
                o.rust = value;
            },
        }
    }

    fn features(&self) -> Vec<Vec<u8>> {
        let fs = match self {
            Options::Asm(o) => &o.features,
            Options::LlvmIr(o) => &o.features,
        };
        let mut r: Vec<Vec<u8>> = Vec::new();
        let mut i: usize = 0;
        while i < fs.len()
            invariant
                0 <= i <= fs@.len(),
            decreases fs@.len() - i,
        {
            r.push(subrange_vec(fs[i].as_slice(), 0, fs[i].len()));
            i += 1;
        }
        r
    }

    fn example(&self) -> Option<Vec<u8>> {
        match self {
            Options::Asm(o) => clone_opt_bytes(&o.example),
            Options::LlvmIr(o) => clone_opt_bytes(&o.example),
        }
    }

    fn lib(&self) -> bool {
        match self {
            Options::Asm(o) => o.lib,
            Options::LlvmIr(o) => o.lib,
        }
    }

    fn no_default_features(&self) -> bool {
        match self {
            Options::Asm(o) => o.no_default_features,
            Options::LlvmIr(o) => o.no_default_features,
        }
    }
}

} // verus!
