use vstd::prelude::*;
use vstd::utf8::encode_utf8;
use crate::name::{is_valid_name, validate_extension_name, NameError};
use crate::render::{render, rendered};
use crate::runner::{run_with, Runner};

verus! {

/// The fixed template texts that a new extension is made from.
#[derive(Debug, Clone)]
pub struct Templates {
    /// The extension's control file; `{name}` is substituted.
    pub control: Vec<u8>,
    /// The crate manifest; `{name}` is substituted.
    pub cargo_toml: Vec<u8>,
    /// The local cargo configuration, copied as it is.
    pub cargo_config: Vec<u8>,
    /// The entry point of a plain extension; `{name}` is substituted.
    pub lib_rs: Vec<u8>,
    /// The entry point of a background worker; `{name}` is substituted.
    pub bgworker_lib_rs: Vec<u8>,
    /// The ignore rules, copied as they are.
    pub gitignore: Vec<u8>,
}

/// Which entry point the new extension gets.
#[derive(Debug, Clone, Copy, PartialEq, Eq)]
pub enum TemplateVariant {
    Standard,
    Worker,
}

impl TemplateVariant {
    /// `Worker` when a background worker is asked for, else `Standard`.
    pub fn from_flag(is_bgworker: bool) -> (r: TemplateVariant)
        ensures
            r == variant_of(is_bgworker),
    {
        if is_bgworker {
            TemplateVariant::Worker
        } else {
            TemplateVariant::Standard
        }
    }
}

pub open spec fn variant_of(is_bgworker: bool) -> TemplateVariant {
    if is_bgworker {
        TemplateVariant::Worker
    } else {
        TemplateVariant::Standard
    }
}

/// What one step leaves in the destination tree, by path relative to the
/// extension's root directory.
pub enum Artifact {
    Directory(Seq<char>),
    File(Seq<char>, Seq<u8>),
}

/// One step of creating an extension crate; paths are relative to the
/// extension's root directory and use `/` between components.
#[derive(Debug, Clone, PartialEq, Eq)]
pub enum ScaffoldStep {
    /// Create the directory, with any missing parent; an existing one is kept.
    CreateDir { path: String },
    /// Create or truncate the file and write `contents` to it.
    WriteFile { path: String, contents: Vec<u8> },
}

impl View for ScaffoldStep {
    type V = Artifact;

    open spec fn view(&self) -> Artifact {
        match self {
            ScaffoldStep::CreateDir { path } => Artifact::Directory(path@),
            ScaffoldStep::WriteFile { path, contents } => Artifact::File(path@, contents@),
        }
    }
}

pub open spec fn steps_view(steps: Seq<ScaffoldStep>) -> Seq<Artifact> {
    steps.map_values(|s: ScaffoldStep| s@)
}

pub open spec fn control_path(name: Seq<char>) -> Seq<char> {
    name + ".control"@
}

/// The entry-point template that `variant` selects.
pub open spec fn entry_template(t: &Templates, variant: TemplateVariant) -> Seq<u8> {
    match variant {
        TemplateVariant::Standard => t.lib_rs@,
        TemplateVariant::Worker => t.bgworker_lib_rs@,
    }
}

/// The directories of a new extension, in the order they are created.
pub open spec fn planned_directories() -> Seq<Artifact> {
    seq![
        Artifact::Directory("src"@),
        Artifact::Directory(".cargo"@),
        Artifact::Directory("sql"@),
    ]
}

/// The whole plan for extension `name`: three directories, then the control
/// file, the manifest, the cargo configuration, the entry point and the
/// ignore rules.
pub open spec fn planned_steps(name: Seq<char>, variant: TemplateVariant, t: &Templates) -> Seq<
    Artifact,
> {
    planned_directories() + seq![
        Artifact::File(control_path(name), rendered(t.control@, encode_utf8(name))),
        Artifact::File("Cargo.toml"@, rendered(t.cargo_toml@, encode_utf8(name))),
        Artifact::File(".cargo/config"@, t.cargo_config@),
        Artifact::File("src/lib.rs"@, rendered(entry_template(t, variant), encode_utf8(name))),
        Artifact::File(".gitignore"@, t.gitignore@),
    ]
}

/// The number of directories that a plan creates before its first file.
pub const DIRECTORY_STEPS: usize = 3;

fn copy_bytes(b: &Vec<u8>) -> (r: Vec<u8>)
    ensures
        r@ == b@,
{
    let r = b.clone();
    assert(r@ =~= b@);
    r
}

/// The source, configuration and SQL directories.
pub fn create_directory_structure() -> (r: Vec<ScaffoldStep>)
    ensures
        steps_view(r@) == planned_directories(),
{
    let mut r: Vec<ScaffoldStep> = Vec::new();
    r.push(ScaffoldStep::CreateDir { path: String::from_str("src") });
    r.push(ScaffoldStep::CreateDir { path: String::from_str(".cargo") });
    r.push(ScaffoldStep::CreateDir { path: String::from_str("sql") });
    assert(steps_view(r@) =~= planned_directories());
    r
}

/// The control file `<name>.control`, rendered with the name.
pub fn create_control_file(name: &str, t: &Templates) -> (r: ScaffoldStep)
    ensures
        r@ == Artifact::File(control_path(name@), rendered(t.control@, encode_utf8(name@))),
{
    let path = String::from_str(name).concat(".control");
    ScaffoldStep::WriteFile { path, contents: render(t.control.as_slice(), name.as_bytes()) }
}

/// The manifest `Cargo.toml`, rendered with the name.
pub fn create_cargo_toml(name: &str, t: &Templates) -> (r: ScaffoldStep)
    ensures
        r@ == Artifact::File("Cargo.toml"@, rendered(t.cargo_toml@, encode_utf8(name@))),
{
    let path = String::from_str("Cargo.toml");
    ScaffoldStep::WriteFile { path, contents: render(t.cargo_toml.as_slice(), name.as_bytes()) }
}

/// The cargo configuration `.cargo/config`, copied as it is: the name takes
/// no part in it.
pub fn create_dotcargo_config(_name: &str, t: &Templates) -> (r: ScaffoldStep)
    ensures
        r@ == Artifact::File(".cargo/config"@, t.cargo_config@),
{
    let path = String::from_str(".cargo/config");
    ScaffoldStep::WriteFile { path, contents: copy_bytes(&t.cargo_config) }
}

/// The entry point `src/lib.rs`, from the template that `variant` selects,
/// rendered with the name.
pub fn create_lib_rs(name: &str, variant: TemplateVariant, t: &Templates) -> (r: ScaffoldStep)
    ensures
        r@ == Artifact::File("src/lib.rs"@, rendered(entry_template(t, variant), encode_utf8(name@))),
{
    let path = String::from_str("src/lib.rs");
    let contents = match variant {
        TemplateVariant::Standard => render(t.lib_rs.as_slice(), name.as_bytes()),
        TemplateVariant::Worker => render(t.bgworker_lib_rs.as_slice(), name.as_bytes()),
    };
    ScaffoldStep::WriteFile { path, contents }
}

/// The ignore rules `.gitignore`, copied as they are: the name takes no part
/// in them.
pub fn create_git_ignore(_name: &str, t: &Templates) -> (r: ScaffoldStep)
    ensures
        r@ == Artifact::File(".gitignore"@, t.gitignore@),
{
    let path = String::from_str(".gitignore");
    ScaffoldStep::WriteFile { path, contents: copy_bytes(&t.gitignore) }
}

/// Every step of creating extension `name`, in the order they must run.
pub fn create_crate_template(name: &str, is_bgworker: bool, t: &Templates) -> (r: Vec<
    ScaffoldStep,
>)
    ensures
        steps_view(r@) == planned_steps(name@, variant_of(is_bgworker), t),
{
    let mut r = create_directory_structure();
    r.push(create_control_file(name, t));
    r.push(create_cargo_toml(name, t));
    r.push(create_dotcargo_config(name, t));
    r.push(create_lib_rs(name, TemplateVariant::from_flag(is_bgworker), t));
    r.push(create_git_ignore(name, t));
    assert(steps_view(r@) =~= planned_steps(name@, variant_of(is_bgworker), t));
    r
}

/// The request to create a new extension crate.
#[derive(Debug, Clone)]
pub struct New {
    /// The name of the extension.
    pub name: String,
    /// Create a background worker template.
    pub bgworker: bool,
    /// How verbose the output is.
    pub verbose: usize,
}

impl New {
    /// Checks the name, then plans the whole crate; a rejected name plans
    /// nothing.
    pub fn execute(&self, t: &Templates) -> (r: Result<Vec<ScaffoldStep>, NameError>)
        ensures
            r is Err <==> !is_valid_name(self.name@),
            r matches Ok(steps) ==> steps_view(steps@) == planned_steps(
                self.name@,
                variant_of(self.bgworker),
                t,
            ),
    {
        match validate_extension_name(self.name.as_str()) {
            Err(e) => Err(e),
            Ok(()) => Ok(create_crate_template(self.name.as_str(), self.bgworker, t)),
        }
    }
}

/// The two variants plan the same steps but for the entry point, which the
/// standard variant renders from `lib_rs` and the worker variant from
/// `bgworker_lib_rs`; so the entry points differ whenever those renderings do.
pub proof fn lemma_variant_changes_only_entry_point(name: Seq<char>, t: &Templates)
    ensures
        planned_steps(name, TemplateVariant::Standard, t).len() == planned_steps(
            name,
            TemplateVariant::Worker,
            t,
        ).len(),
        forall|i: int|
            0 <= i < 8 && i != 6 ==> planned_steps(name, TemplateVariant::Standard, t)[i]
                == planned_steps(name, TemplateVariant::Worker, t)[i],
        planned_steps(name, TemplateVariant::Standard, t)[6] == Artifact::File(
            "src/lib.rs"@,
            rendered(t.lib_rs@, encode_utf8(name)),
        ),
        planned_steps(name, TemplateVariant::Worker, t)[6] == Artifact::File(
            "src/lib.rs"@,
            rendered(t.bgworker_lib_rs@, encode_utf8(name)),
        ),
        rendered(t.lib_rs@, encode_utf8(name)) != rendered(t.bgworker_lib_rs@, encode_utf8(name))
            ==> planned_steps(name, TemplateVariant::Standard, t)[6] != planned_steps(
            name,
            TemplateVariant::Worker,
            t,
        )[6],
{
}

/// The cargo configuration and the ignore rules are the templates' bytes
/// exactly, whatever the name and the variant.
pub proof fn lemma_verbatim_files_ignore_name(
    a: Seq<char>,
    b: Seq<char>,
    va: TemplateVariant,
    vb: TemplateVariant,
    t: &Templates,
)
    ensures
        planned_steps(a, va, t)[5] == Artifact::File(".cargo/config"@, t.cargo_config@),
        planned_steps(a, va, t)[7] == Artifact::File(".gitignore"@, t.gitignore@),
        planned_steps(a, va, t)[5] == planned_steps(b, vb, t)[5],
        planned_steps(a, va, t)[7] == planned_steps(b, vb, t)[7],
{
}

/// When a directory step fails, the run stops there and no file is
/// written: every step that was tried creates a directory.
pub proof fn lemma_directory_failure_writes_no_file(
    name: Seq<char>,
    variant: TemplateVariant,
    t: &Templates,
    outcomes: Seq<bool>,
    k: int,
)
    requires
        0 <= k < DIRECTORY_STEPS,
        k < outcomes.len(),
        !outcomes[k],
        forall|j: int| 0 <= j < k ==> #[trigger] outcomes[j],
    ensures
        run_with(Runner::initial(8), outcomes).failed,
        run_with(Runner::initial(8), outcomes).pending() is None,
        forall|i: int|
            0 <= i <= run_with(Runner::initial(8), outcomes).next ==> #[trigger] planned_steps(
                name,
                variant,
                t,
            )[i] is Directory,
{
    crate::runner::lemma_stops_at_first_failure(8, outcomes, k);
}

} // verus!
