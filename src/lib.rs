//! Scaffolding for a new PostgreSQL extension crate: name validation,
//! template rendering, the ordered plan of directories and files, and a
//! fail-fast runner that decides which step of the plan comes next.

pub mod name;
pub mod plan;
pub mod render;
pub mod runner;
pub mod tree;

pub use name::{validate_extension_name, NameError};
pub use plan::{
    create_cargo_toml, create_control_file, create_crate_template, create_directory_structure,
    create_dotcargo_config, create_git_ignore, create_lib_rs, New, ScaffoldStep, TemplateVariant,
    Templates,
};
pub use render::render;
pub use runner::Runner;
