use vstd::prelude::*;
use crate::plan::{Artifact, control_path, planned_steps, Templates, TemplateVariant};

verus! {

/// What a path of the destination tree holds.
pub enum Entry {
    Dir,
    File(Seq<u8>),
}

/// The destination tree, by path relative to the extension's root directory.
pub type Tree = Map<Seq<char>, Entry>;

pub open spec fn path_of(a: Artifact) -> Seq<char> {
    match a {
        Artifact::Directory(p) => p,
        Artifact::File(p, _) => p,
    }
}

pub open spec fn entry_of(a: Artifact) -> Entry {
    match a {
        Artifact::Directory(_) => Entry::Dir,
        Artifact::File(_, c) => Entry::File(c),
    }
}

/// Carrying out one step: a directory is created or kept where one exists,
/// and fails over a file; a file is created or overwritten, and fails over a
/// directory.
pub open spec fn apply_step(tree: Tree, a: Artifact) -> Option<Tree> {
    let p = path_of(a);
    if tree.contains_key(p) && (tree[p] is Dir) != (entry_of(a) is Dir) {
        None
    } else {
        Some(tree.insert(p, entry_of(a)))
    }
}

/// Carrying out a plan in order, stopping at the first step that fails.
pub open spec fn apply_plan(tree: Tree, plan: Seq<Artifact>) -> Option<Tree>
    decreases plan.len(),
{
    if plan.len() == 0 {
        Some(tree)
    } else {
        match apply_step(tree, plan[0]) {
            Some(t) => apply_plan(t, plan.drop_first()),
            None => None,
        }
    }
}

/// No two steps of `plan` name the same path.
pub open spec fn distinct_paths(plan: Seq<Artifact>) -> bool {
    forall|i: int, j: int|
        0 <= i < plan.len() && 0 <= j < plan.len() && i != j ==> path_of(plan[i]) != path_of(
            plan[j],
        )
}

/// `tree` already holds what every step of `plan` would leave.
pub open spec fn holds_plan(tree: Tree, plan: Seq<Artifact>) -> bool {
    forall|i: int|
        0 <= i < plan.len() ==> tree.contains_key(#[trigger] path_of(plan[i])) && tree[path_of(
            plan[i],
        )] == entry_of(plan[i])
}

proof fn lemma_apply_onto_holding(tree: Tree, plan: Seq<Artifact>)
    requires
        holds_plan(tree, plan),
    ensures
        apply_plan(tree, plan) == Some(tree),
    decreases plan.len(),
{
    if plan.len() > 0 {
        let p = path_of(plan[0]);
        assert(tree.contains_key(p));
        assert(tree.insert(p, entry_of(plan[0])) =~= tree);
        let rest = plan.drop_first();
        assert forall|i: int| 0 <= i < rest.len() implies tree.contains_key(
            #[trigger] path_of(rest[i]),
        ) && tree[path_of(rest[i])] == entry_of(rest[i]) by {
            assert(rest[i] == plan[i + 1]);
        };
        lemma_apply_onto_holding(tree, rest);
    }
}

proof fn lemma_apply_result_holds(tree: Tree, plan: Seq<Artifact>)
    requires
        distinct_paths(plan),
        apply_plan(tree, plan) is Some,
    ensures
        holds_plan(apply_plan(tree, plan)->0, plan),
        forall|p: Seq<char>| #[trigger]
            apply_plan(tree, plan)->0.contains_key(p) <==> tree.contains_key(p) || exists|i: int|
                0 <= i < plan.len() && path_of(plan[i]) == p,
    decreases plan.len(),
{
    if plan.len() > 0 {
        let t = apply_step(tree, plan[0])->0;
        let rest = plan.drop_first();
        assert forall|i: int, j: int|
            0 <= i < rest.len() && 0 <= j < rest.len() && i != j implies path_of(rest[i])
            != path_of(rest[j]) by {
            assert(rest[i] == plan[i + 1] && rest[j] == plan[j + 1]);
        };
        lemma_apply_result_holds(t, rest);
        let out = apply_plan(t, rest)->0;
        assert(out == apply_plan(tree, plan)->0);
        assert forall|i: int| 0 <= i < plan.len() implies out.contains_key(
            #[trigger] path_of(plan[i]),
        ) && out[path_of(plan[i])] == entry_of(plan[i]) by {
            if i > 0 {
                assert(plan[i] == rest[i - 1]);
            } else {
                assert forall|j: int| 0 <= j < rest.len() implies path_of(rest[j]) != path_of(
                    plan[0],
                ) by {
                    assert(rest[j] == plan[j + 1]);
                };
                lemma_untouched(t, rest, path_of(plan[0]));
            }
        };
        assert forall|p: Seq<char>| #[trigger]
            out.contains_key(p) <==> tree.contains_key(p) || exists|i: int|
                0 <= i < plan.len() && path_of(plan[i]) == p by {
            if exists|i: int| 0 <= i < rest.len() && path_of(rest[i]) == p {
                let i = choose|i: int| 0 <= i < rest.len() && path_of(rest[i]) == p;
                assert(plan[i + 1] == rest[i]);
            }
            if exists|i: int| 0 <= i < plan.len() && path_of(plan[i]) == p {
                let i = choose|i: int| 0 <= i < plan.len() && path_of(plan[i]) == p;
                if i > 0 {
                    assert(plan[i] == rest[i - 1]);
                }
            }
        };
    }
}

proof fn lemma_untouched(tree: Tree, plan: Seq<Artifact>, p: Seq<char>)
    requires
        apply_plan(tree, plan) is Some,
        forall|j: int| 0 <= j < plan.len() ==> path_of(#[trigger] plan[j]) != p,
    ensures
        apply_plan(tree, plan)->0.contains_key(p) == tree.contains_key(p),
        tree.contains_key(p) ==> apply_plan(tree, plan)->0[p] == tree[p],
    decreases plan.len(),
{
    if plan.len() > 0 {
        let rest = plan.drop_first();
        assert(path_of(plan[0]) != p);
        assert forall|j: int| 0 <= j < rest.len() implies path_of(#[trigger] rest[j]) != p by {
            assert(rest[j] == plan[j + 1]);
        };
        lemma_untouched(apply_step(tree, plan[0])->0, rest, p);
    }
}

/// Carrying out a plan whose paths are distinct a second time, on the tree
/// that the first run left, succeeds and changes nothing: every file is
/// written again with the same bytes and every directory is kept.
pub proof fn lemma_rerun_unchanged(tree: Tree, plan: Seq<Artifact>)
    requires
        distinct_paths(plan),
        apply_plan(tree, plan) is Some,
    ensures
        apply_plan(apply_plan(tree, plan)->0, plan) == apply_plan(tree, plan),
{
    lemma_apply_result_holds(tree, plan);
    lemma_apply_onto_holding(apply_plan(tree, plan)->0, plan);
}

/// The eight paths that a new extension's plan names are distinct, whatever
/// the name.
pub proof fn lemma_plan_paths_distinct(name: Seq<char>, variant: TemplateVariant, t: &Templates)
    ensures
        planned_steps(name, variant, t).len() == 8,
        distinct_paths(planned_steps(name, variant, t)),
{
    let plan = planned_steps(name, variant, t);
    reveal_strlit("src");
    reveal_strlit(".cargo");
    reveal_strlit("sql");
    reveal_strlit(".control");
    reveal_strlit("Cargo.toml");
    reveal_strlit(".cargo/config");
    reveal_strlit("src/lib.rs");
    reveal_strlit(".gitignore");
    let c = control_path(name);
    let n = name.len() as int;
    assert(c[n] == '.');
    assert(c[n + 1] == 'c');
    assert(path_of(plan[0]) == "src"@);
    assert(path_of(plan[1]) == ".cargo"@);
    assert(path_of(plan[2]) == "sql"@);
    assert(path_of(plan[3]) == c);
    assert(path_of(plan[4]) == "Cargo.toml"@);
    assert(path_of(plan[5]) == ".cargo/config"@);
    assert(path_of(plan[6]) == "src/lib.rs"@);
    assert(path_of(plan[7]) == ".gitignore"@);
    assert("src"@ != "sql"@) by {
        assert("src"@[1] != "sql"@[1]);
    };
    assert("Cargo.toml"@ != "src/lib.rs"@) by {
        assert("Cargo.toml"@[0] != "src/lib.rs"@[0]);
    };
    assert("Cargo.toml"@ != ".gitignore"@) by {
        assert("Cargo.toml"@[0] != ".gitignore"@[0]);
    };
    assert("src/lib.rs"@ != ".gitignore"@) by {
        assert("src/lib.rs"@[0] != ".gitignore"@[0]);
    };
    assert(c != "Cargo.toml"@) by {
        if c.len() == 10 {
            assert(c[2] != "Cargo.toml"@[2]);
        }
    };
    assert(c != "src/lib.rs"@) by {
        if c.len() == 10 {
            assert(c[2] != "src/lib.rs"@[2]);
        }
    };
    assert(c != ".gitignore"@) by {
        if c.len() == 10 {
            assert(c[2] != ".gitignore"@[2]);
        }
    };
    assert(c != ".cargo/config"@) by {
        if c.len() == 13 {
            assert(c[5] != ".cargo/config"@[5]);
        }
    };
}

/// Creating a new extension in an empty destination succeeds and leaves
/// exactly the eight entries of its plan: three directories and five files,
/// each with the bytes the plan gives it.
pub proof fn lemma_fresh_tree(name: Seq<char>, variant: TemplateVariant, t: &Templates)
    ensures
        apply_plan(Map::empty(), planned_steps(name, variant, t)) is Some,
        holds_plan(apply_plan(Map::empty(), planned_steps(name, variant, t))->0, planned_steps(name, variant, t)),
        apply_plan(Map::empty(), planned_steps(name, variant, t))->0.dom() =~= Set::new(
            |p: Seq<char>| exists|i: int| 0 <= i < 8 && path_of(planned_steps(name, variant, t)[i]) == p,
        ),
        apply_plan(Map::empty(), planned_steps(name, variant, t))->0.dom().len() == 8,
{
    let plan = planned_steps(name, variant, t);
    lemma_plan_paths_distinct(name, variant, t);
    lemma_apply_fresh(Map::empty(), plan);
    lemma_apply_result_holds(Map::empty(), plan);
    let out = apply_plan(Map::empty(), plan)->0;
    let s = Set::<Seq<char>>::empty().insert(path_of(plan[0])).insert(path_of(plan[1])).insert(
        path_of(plan[2]),
    ).insert(path_of(plan[3])).insert(path_of(plan[4])).insert(path_of(plan[5])).insert(
        path_of(plan[6]),
    ).insert(path_of(plan[7]));
    assert forall|p: Seq<char>| out.dom().contains(p) <==> s.contains(p) by {
        if out.contains_key(p) {
            let i = choose|i: int| 0 <= i < plan.len() && path_of(plan[i]) == p;
            assert(0 <= i < 8);
        }
    };
    assert(out.dom() =~= s);
    assert(s.len() == 8);
}

proof fn lemma_apply_fresh(tree: Tree, plan: Seq<Artifact>)
    requires
        distinct_paths(plan),
        forall|i: int| 0 <= i < plan.len() ==> !tree.contains_key(#[trigger] path_of(plan[i])),
    ensures
        apply_plan(tree, plan) is Some,
    decreases plan.len(),
{
    if plan.len() > 0 {
        let t = tree.insert(path_of(plan[0]), entry_of(plan[0]));
        let rest = plan.drop_first();
        assert forall|i: int, j: int|
            0 <= i < rest.len() && 0 <= j < rest.len() && i != j implies path_of(rest[i])
            != path_of(rest[j]) by {
            assert(rest[i] == plan[i + 1] && rest[j] == plan[j + 1]);
        };
        assert forall|i: int| 0 <= i < rest.len() implies !t.contains_key(
            #[trigger] path_of(rest[i]),
        ) by {
            assert(rest[i] == plan[i + 1]);
            assert(path_of(plan[i + 1]) != path_of(plan[0]));
        };
        lemma_apply_fresh(t, rest);
    }
}

/// Creating a new extension again over the tree that a completed run left,
/// with the same name, variant and templates, succeeds and leaves that tree
/// as it was: files are overwritten with identical bytes, directories kept.
pub proof fn lemma_regenerate_unchanged(
    tree: Tree,
    name: Seq<char>,
    variant: TemplateVariant,
    t: &Templates,
)
    requires
        apply_plan(tree, planned_steps(name, variant, t)) is Some,
    ensures
        apply_plan(apply_plan(tree, planned_steps(name, variant, t))->0, planned_steps(name, variant, t))
            == apply_plan(tree, planned_steps(name, variant, t)),
{
    lemma_plan_paths_distinct(name, variant, t);
    lemma_rerun_unchanged(tree, planned_steps(name, variant, t));
}

} // verus!
