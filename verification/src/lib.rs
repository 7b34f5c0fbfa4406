pub mod compiler;
pub mod model;
pub mod modmap;
pub mod registry;
pub mod strmap;

pub use compiler::Compiler;
pub use model::{Cpp20ModulesInfo, Ddi, Module, Provide, Reference, Require, Rule};
pub use modmap::{generate_modmap, ResolveError};
pub use registry::{merge_cpp20modules_info, transform_ddi_to_cpp20modules_info};
pub use strmap::StrMap;
