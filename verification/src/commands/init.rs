//! What `init` decides: whether a target directory may receive the
//! repository scaffold, which files the scaffold holds for the chosen
//! features, and what to tell the user afterwards.
use vstd::prelude::*;
use crate::text::{
    chars_of, decimal, extend_chars, lemma_text_le_total, lemma_text_le_transitive, push_decimal,
    range_eq, string_of, text_le, text_le_exec,
};

verus! {

/// The template of `.pre-commit-config.yaml`. The hook revisions are left
/// empty; `pre-commit autoupdate` fills them in.
pub const TEMPLATE_PRE_COMMIT: &'static str = "repos:
  - repo: https://github.com/adrienverge/yamllint
    rev: \"\"
    hooks:
      - id: yamllint
  - repo: https://github.com/sqlfluff/sqlfluff
    rev: \"\"
    hooks:
      - id: sqlfluff-lint
        exclude: ^snippets/
      - id: sqlfluff-lint
        name: sqlfluff-lint-snippets
        alias: sqlfluff-lint-snippets
        files: ^snippets/
        args: [--exclude-rules, \"LT12\"]
";

/// The template of `.sqlfluff`.
pub const TEMPLATE_SQLFLUFF: &'static str = "[sqlfluff]
dialect = bigquery
templater = placeholder
max_line_length = 120

[sqlfluff:templater:placeholder]
param_regex = \\{\\{ *(?P<param_name>[\\w_]+) *\\}\\}
";

/// The template of `.yamllint`.
pub const TEMPLATE_YAMLLINT: &'static str = "extends: default

rules:
  line-length: disable
  document-start: disable
  truthy: disable
";

/// The template of `.gitignore`.
pub const TEMPLATE_GITIGNORE: &'static str = ".DS_Store
*.swp
.env
";

/// The template of `AGENTS.md`.
pub const TEMPLATE_CLAUDE_MD: &'static str = "# Redash queries and dashboards

This repository keeps Redash queries and dashboards under version control with
`stmo-cli`. Git is the source of truth: deploying overwrites what is on Redash.

## Layout

- `queries/{id}-{slug}.sql` holds the SQL of a query.
- `queries/{id}-{slug}.yaml` holds its metadata: name, data source, parameters,
  visualizations.
- `dashboards/` holds dashboards.
- `snippets/` holds reusable SQL fragments; they are linted but never deployed.

A new query gets id 0 (`queries/0-my-query.sql` and `.yaml`); deploying it
creates it on Redash and renames its files to the id Redash gave it.

## Quick Reference

- `stmo-cli discover` lists your queries on Redash.
- `stmo-cli fetch <id>...` downloads queries into `queries/`.
- `stmo-cli deploy` pushes the queries changed according to `git status`.
- `stmo-cli deploy --all` pushes every query.
- `cargo install stmo-cli` installs or updates the tool.

Write multi-line `enumOptions` with YAML's `|-` block style, never with `\\n`
escapes.
";

/// A file that the scaffold may write.
#[derive(Debug, Clone, Copy)]
pub struct ScaffoldFile {
    pub path: &'static str,
    pub content: &'static str,
    pub description: &'static str,
}

/// The scaffold's `.gitignore`.
pub open spec fn gitignore_file() -> ScaffoldFile {
    ScaffoldFile { path: ".gitignore", content: TEMPLATE_GITIGNORE, description: "git ignore rules" }
}

/// The scaffold's `.sqlfluff`.
pub open spec fn sqlfluff_file() -> ScaffoldFile {
    ScaffoldFile { path: ".sqlfluff", content: TEMPLATE_SQLFLUFF, description: "sqlfluff linter config" }
}

/// The scaffold's `.yamllint`.
pub open spec fn yamllint_file() -> ScaffoldFile {
    ScaffoldFile { path: ".yamllint", content: TEMPLATE_YAMLLINT, description: "yamllint config" }
}

/// The scaffold's `.pre-commit-config.yaml`.
pub open spec fn precommit_file() -> ScaffoldFile {
    ScaffoldFile {
        path: ".pre-commit-config.yaml",
        content: TEMPLATE_PRE_COMMIT,
        description: "pre-commit hooks config",
    }
}

/// The scaffold's `AGENTS.md`.
pub open spec fn claude_md_file() -> ScaffoldFile {
    ScaffoldFile { path: "AGENTS.md", content: TEMPLATE_CLAUDE_MD, description: "AI assistant instructions" }
}

/// The answers to the setup questions: five independent yes/no choices.
#[derive(Debug, Clone, Copy, PartialEq, Eq, Structural)]
pub struct InitChoices {
    pub git: bool,
    pub commit: bool,
    pub linters: bool,
    pub precommit: bool,
    pub claude_md: bool,
}

/// The choices are consistent with the questions asked: a commit only with
/// git, pre-commit hooks only with git and linters.
pub open spec fn choices_consistent(c: InitChoices) -> bool {
    (c.commit ==> c.git) && (c.precommit ==> c.git && c.linters)
}

impl InitChoices {
    /// The choices made from the answers given. The commit question is only
    /// asked after git was chosen, and the pre-commit question only after
    /// git and linters were chosen and when `pre-commit` is installed; an
    /// answer to a question that was not asked is no.
    pub fn from_answers(
        git: bool,
        commit: bool,
        linters: bool,
        precommit: bool,
        claude_md: bool,
        precommit_installed: bool,
    ) -> (c: InitChoices)
        ensures
            c.git == git,
            c.commit == (git && commit),
            c.linters == linters,
            c.precommit == (git && linters && precommit_installed && precommit),
            c.claude_md == claude_md,
            choices_consistent(c),
    {
        InitChoices {
            git,
            commit: git && commit,
            linters,
            precommit: git && linters && precommit_installed && precommit,
            claude_md,
        }
    }
}

/// Whether the commit question is asked: only after git was chosen.
pub fn offer_commit(git: bool) -> (r: bool)
    ensures
        r == git,
{
    git
}

/// Whether the pre-commit question is asked: only after git and linters
/// were chosen, and only when `pre-commit` is installed.
pub fn offer_precommit(git: bool, linters: bool, precommit_installed: bool) -> (r: bool)
    ensures
        r == (git && linters && precommit_installed),
{
    git && linters && precommit_installed
}

/// The files the scaffold writes for the given choices, in order: the git
/// ignore rules with git, the linter configs with linters, the pre-commit
/// config with git and pre-commit (never without git), and `AGENTS.md` when
/// chosen.
pub open spec fn planned_files(c: InitChoices) -> Seq<ScaffoldFile> {
    (if c.git {
        seq![gitignore_file()]
    } else {
        Seq::<ScaffoldFile>::empty()
    }) + (if c.linters {
        seq![sqlfluff_file(), yamllint_file()]
    } else {
        Seq::<ScaffoldFile>::empty()
    }) + (if c.git && c.precommit {
        seq![precommit_file()]
    } else {
        Seq::<ScaffoldFile>::empty()
    }) + (if c.claude_md {
        seq![claude_md_file()]
    } else {
        Seq::<ScaffoldFile>::empty()
    })
}

/// Lists the files the scaffold writes for the given choices.
pub fn scaffold_files(choices: &InitChoices) -> (r: Vec<ScaffoldFile>)
    ensures
        r@ == planned_files(*choices),
{
    let mut out: Vec<ScaffoldFile> = Vec::new();
    if choices.git {
        out.push(
            ScaffoldFile { path: ".gitignore", content: TEMPLATE_GITIGNORE, description: "git ignore rules" },
        );
    }
    let ghost a = out@;
    if choices.linters {
        out.push(
            ScaffoldFile {
                path: ".sqlfluff",
                content: TEMPLATE_SQLFLUFF,
                description: "sqlfluff linter config",
            },
        );
        out.push(
            ScaffoldFile { path: ".yamllint", content: TEMPLATE_YAMLLINT, description: "yamllint config" },
        );
    }
    let ghost b = out@;
    if choices.git && choices.precommit {
        out.push(
            ScaffoldFile {
                path: ".pre-commit-config.yaml",
                content: TEMPLATE_PRE_COMMIT,
                description: "pre-commit hooks config",
            },
        );
    }
    let ghost d = out@;
    if choices.claude_md {
        out.push(
            ScaffoldFile {
                path: "AGENTS.md",
                content: TEMPLATE_CLAUDE_MD,
                description: "AI assistant instructions",
            },
        );
    }
    assert(out@ =~= planned_files(*choices));
    out
}

/// The directories the scaffold creates: `queries` and `dashboards`.
pub open spec fn scaffold_directories() -> Seq<Seq<char>> {
    seq!["queries"@, "dashboards"@]
}

/// Whether a commit is made after scaffolding: only with git, when a commit
/// was chosen and something new was created.
pub fn should_commit(choices: &InitChoices, files_created: usize) -> (r: bool)
    ensures
        r == (choices.git && choices.commit && files_created > 0),
{
    choices.git && choices.commit && files_created > 0
}

/// Whether pre-commit is set up after scaffolding: only with git, when it
/// was chosen.
pub fn should_setup_precommit(choices: &InitChoices) -> (r: bool)
    ensures
        r == (choices.git && choices.precommit),
{
    choices.git && choices.precommit
}

/// An item of the scaffold: one of its directories, or one of its files.
#[derive(Debug, Clone, Copy)]
pub enum ScaffoldItem {
    /// A directory, named relative to the target.
    Directory(&'static str),
    /// A file, as `scaffold_files` lists it.
    File(ScaffoldFile),
}

/// The items of the scaffold for the given choices, in the order they are
/// made: the `queries` and `dashboards` directories, then the planned files.
pub open spec fn planned_items(c: InitChoices) -> Seq<ScaffoldItem> {
    seq![ScaffoldItem::Directory("queries"), ScaffoldItem::Directory("dashboards")] + planned_files(c).map_values(
        |f: ScaffoldFile| ScaffoldItem::File(f),
    )
}

/// Lists the items of the scaffold for the given choices.
pub fn scaffold_items(choices: &InitChoices) -> (r: Vec<ScaffoldItem>)
    ensures
        r@ == planned_items(*choices),
{
    let files = scaffold_files(choices);
    let mut out: Vec<ScaffoldItem> = Vec::new();
    out.push(ScaffoldItem::Directory("queries"));
    out.push(ScaffoldItem::Directory("dashboards"));
    let mut i: usize = 0;
    while i < files.len()
        invariant
            i <= files.len(),
            files@ == planned_files(*choices),
            out@ == seq![ScaffoldItem::Directory("queries"), ScaffoldItem::Directory("dashboards")] + files@.take(
                i as int,
            ).map_values(|f: ScaffoldFile| ScaffoldItem::File(f)),
        decreases files.len() - i,
    {
        out.push(ScaffoldItem::File(files[i]));
        proof {
            assert(files@.take(i + 1) =~= files@.take(i as int).push(files@[i as int]));
        }
        i = i + 1;
        assert(out@ =~= seq![ScaffoldItem::Directory("queries"), ScaffoldItem::Directory("dashboards")]
            + files@.take(i as int).map_values(|f: ScaffoldFile| ScaffoldItem::File(f)));
    }
    assert(files@.take(i as int) =~= files@);
    out
}

/// The path, relative to the target, whose presence shows that an item is
/// already there: a directory's `.gitkeep` with git (only then does it get
/// one), the directory itself without; a file's own path.
pub open spec fn presence_path(item: ScaffoldItem, git: bool) -> Seq<char> {
    match item {
        ScaffoldItem::Directory(d) => if git {
            d@ + "/.gitkeep"@
        } else {
            d@
        },
        ScaffoldItem::File(f) => f.path@,
    }
}

/// Writes the path whose presence shows that an item is already there.
pub fn presence_key(item: &ScaffoldItem, git: bool) -> (r: String)
    ensures
        r@ == presence_path(*item, git),
{
    match item {
        ScaffoldItem::Directory(d) => {
            let mut out = chars_of(d);
            if git {
                let keep = chars_of("/.gitkeep");
                extend_chars(&mut out, &keep);
            }
            string_of(&out)
        },
        ScaffoldItem::File(f) => {
            let out = chars_of(f.path);
            string_of(&out)
        },
    }
}

/// How many of the flags are false: how many items are missing.
pub open spec fn missing_count(present: Seq<bool>) -> nat {
    present.filter(|b: bool| !b).len()
}

/// The work a scaffold does: which items it creates, and how many.
#[derive(Debug)]
pub struct ScaffoldWork {
    /// For each item, in order, whether it is created.
    pub create: Vec<bool>,
    /// How many items are created.
    pub created: usize,
}

/// Decides, from whether each item of the scaffold is already there (in the
/// order of `scaffold_items`), which items are created: exactly the missing
/// ones, so that running the scaffold again creates nothing twice.
pub fn plan_creation(present: &Vec<bool>) -> (r: ScaffoldWork)
    ensures
        r.create@.len() == present@.len(),
        forall|i: int| 0 <= i < present@.len() ==> #[trigger] r.create@[i] == !present@[i],
        r.created == missing_count(present@),
{
    let ghost f = |b: bool| !b;
    let mut create: Vec<bool> = Vec::new();
    let mut created: usize = 0;
    let mut i: usize = 0;
    proof {
        assert(present@.take(0) =~= Seq::<bool>::empty());
        assert(Seq::<bool>::empty().filter(f) =~= Seq::<bool>::empty()) by {
            reveal(Seq::filter);
        }
    }
    while i < present.len()
        invariant
            i <= present.len(),
            f == (|b: bool| !b),
            create@.len() == i,
            forall|j: int| 0 <= j < i ==> #[trigger] create@[j] == !present@[j],
            created == present@.take(i as int).filter(f).len(),
            created <= i,
        decreases present.len() - i,
    {
        let p = present[i];
        proof {
            assert(present@.take(i + 1) =~= present@.take(i as int).push(p));
            crate::naming::lemma_filter_push(present@.take(i as int), p, f);
        }
        create.push(!p);
        if !p {
            created = created + 1;
        }
        i = i + 1;
    }
    assert(present@.take(i as int) =~= present@);
    ScaffoldWork { create, created }
}

/// Running the scaffold on a directory that already holds every item
/// creates nothing, so no commit follows.
pub proof fn lemma_complete_scaffold_creates_nothing(present: Seq<bool>)
    requires
        forall|i: int| 0 <= i < present.len() ==> #[trigger] present[i],
    ensures
        missing_count(present) == 0,
    decreases present.len(),
{
    let f = |b: bool| !b;
    if present.len() == 0 {
        assert(present.filter(f) =~= Seq::<bool>::empty()) by {
            reveal(Seq::filter);
        }
    } else {
        let front = present.drop_last();
        assert forall|i: int| 0 <= i < front.len() implies #[trigger] front[i] by {
            assert(front[i] == present[i]);
        }
        lemma_complete_scaffold_creates_nothing(front);
        crate::naming::lemma_filter_push(front, present.last(), f);
        assert(front.push(present.last()) =~= present);
    }
}

/// Every name that `init` may ever write at the top of the target, whatever
/// the choices: used to recognise an existing scaffold.
pub open spec fn known_scaffold_paths() -> Seq<Seq<char>> {
    seq![".gitignore"@, ".sqlfluff"@, ".yamllint"@, ".pre-commit-config.yaml"@, "AGENTS.md"@]
}

/// Other names that a query/dashboard repository may hold.
pub open spec fn tolerated_names() -> Seq<Seq<char>> {
    seq!["queries"@, "dashboards"@, "snippets"@, ".git"@, ".github"@, ".DS_Store"@]
}

/// A directory entry that does not make the target look unrelated: a
/// scaffold file, one of the repository's usual names, or a README or
/// LICENSE file.
pub open spec fn tolerated(name: Seq<char>) -> bool {
    known_scaffold_paths().contains(name) || tolerated_names().contains(name) || (name.len() >= 6
        && name.take(6) == "README"@) || (name.len() >= 7 && name.take(7) == "LICENSE"@)
}

/// Whether `name` equals the literal `lit`.
fn name_is(name: &Vec<char>, lit: &str) -> (r: bool)
    ensures
        r == (name@ == lit@),
{
    let l = chars_of(lit);
    assert(name@.subrange(0, name@.len() as int) =~= name@);
    range_eq(name, 0, name.len(), &l)
}

/// Whether `name` starts with the literal `lit`.
fn name_starts_with(name: &Vec<char>, lit: &str) -> (r: bool)
    ensures
        r == (name@.len() >= lit@.len() && name@.take(lit@.len() as int) == lit@),
{
    let l = chars_of(lit);
    if name.len() < l.len() {
        return false;
    }
    assert(name@.subrange(0, l@.len() as int) =~= name@.take(l@.len() as int));
    range_eq(name, 0, l.len(), &l)
}

/// Whether a directory entry leaves the target recognisable as a
/// query/dashboard repository.
#[verifier::rlimit(40)]
pub fn tolerated_entry(name: &str) -> (r: bool)
    ensures
        r == tolerated(name@),
{
    let n = chars_of(name);
    let r = name_is(&n, ".gitignore") || name_is(&n, ".sqlfluff") || name_is(&n, ".yamllint")
        || name_is(&n, ".pre-commit-config.yaml") || name_is(&n, "AGENTS.md") || name_is(&n, "queries")
        || name_is(&n, "dashboards") || name_is(&n, "snippets") || name_is(&n, ".git") || name_is(
        &n,
        ".github",
    ) || name_is(&n, ".DS_Store") || name_starts_with(&n, "README") || name_starts_with(&n, "LICENSE");
    proof {
        reveal_strlit("README");
        reveal_strlit("LICENSE");
        let k = known_scaffold_paths();
        let t = tolerated_names();
        assert(k[0] == ".gitignore"@ && k[1] == ".sqlfluff"@ && k[2] == ".yamllint"@ && k[3]
            == ".pre-commit-config.yaml"@ && k[4] == "AGENTS.md"@);
        assert(t[0] == "queries"@ && t[1] == "dashboards"@ && t[2] == "snippets"@ && t[3] == ".git"@
            && t[4] == ".github"@ && t[5] == ".DS_Store"@);
        if k.contains(name@) {
            let i = choose|i: int| 0 <= i < k.len() && k[i] == name@;
            assert(r);
        }
        if t.contains(name@) {
            let i = choose|i: int| 0 <= i < t.len() && t[i] == name@;
            assert(r);
        }
        if r && !(name@.len() >= 6 && name@.take(6) == "README"@) && !(name@.len() >= 7 && name@.take(7)
            == "LICENSE"@) {
            if name@ == ".gitignore"@ {
                assert(k[0] == name@);
            } else if name@ == ".sqlfluff"@ {
                assert(k[1] == name@);
            } else if name@ == ".yamllint"@ {
                assert(k[2] == name@);
            } else if name@ == ".pre-commit-config.yaml"@ {
                assert(k[3] == name@);
            } else if name@ == "AGENTS.md"@ {
                assert(k[4] == name@);
            } else if name@ == "queries"@ {
                assert(t[0] == name@);
            } else if name@ == "dashboards"@ {
                assert(t[1] == name@);
            } else if name@ == "snippets"@ {
                assert(t[2] == name@);
            } else if name@ == ".git"@ {
                assert(t[3] == name@);
            } else if name@ == ".github"@ {
                assert(t[4] == name@);
            } else {
                assert(t[5] == name@);
            }
        }
    }
    r
}

/// What a target directory looks like before scaffolding.
#[derive(Debug)]
pub enum TargetState {
    /// It does not exist yet.
    New,
    /// It exists and is empty.
    Empty,
    /// It holds only names a query/dashboard repository holds.
    ExistingScaffold,
    /// It holds these other entries.
    Unrelated(Vec<String>),
}

/// The entries that are not tolerated, in their order.
pub open spec fn unrelated_entries(entries: Seq<String>) -> Seq<String> {
    entries.filter(|e: String| !tolerated(e@))
}

/// Classifies a target directory from whether it exists and, when it does,
/// the names of its entries.
pub fn classify_entries(exists: bool, entries: Vec<String>) -> (r: TargetState)
    ensures
        !exists ==> r is New,
        exists && entries@.len() == 0 ==> r is Empty,
        exists && entries@.len() > 0 && unrelated_entries(entries@).len() == 0 ==> r is ExistingScaffold,
        exists && entries@.len() > 0 && unrelated_entries(entries@).len() > 0 ==> (r matches TargetState::Unrelated(
            u,
        ) && u@ == unrelated_entries(entries@)),
{
    broadcast use vstd::std_specs::vec::group_vec_axioms;

    if !exists {
        return TargetState::New;
    }
    if entries.len() == 0 {
        return TargetState::Empty;
    }
    let ghost input = entries@;
    let ghost p = |e: String| !tolerated(e@);
    let mut out: Vec<String> = Vec::new();
    proof {
        assert(input.take(0) =~= Seq::<String>::empty());
        assert(Seq::<String>::empty().filter(p) =~= Seq::<String>::empty()) by {
            reveal(Seq::filter);
        }
    }
    for e in it: entries
        invariant
            it.seq() == input,
            p == (|e: String| !tolerated(e@)),
            out@ == input.take(it.index() as int).filter(p),
    {
        let ghost i = it.index() as int;
        proof {
            assert(input[i] == e);
            assert(input.take(i + 1) =~= input.take(i).push(e));
            crate::naming::lemma_filter_push(input.take(i), e, p);
        }
        if !tolerated_entry(e.as_str()) {
            out.push(e);
        }
    }
    proof {
        assert(input.take(input.len() as int) =~= input);
    }
    if out.len() == 0 {
        TargetState::ExistingScaffold
    } else {
        TargetState::Unrelated(out)
    }
}

/// A bare `init` scaffolds the current directory.
pub fn resolve_target(path: Option<String>) -> (r: String)
    ensures
        r@ == match path {
            Some(p) => p@,
            None => "."@,
        },
{
    match path {
        Some(p) => p,
        None => {
            let c = chars_of(".");
            string_of(&c)
        },
    }
}

/// The ASCII whitespace bytes that `trim_ascii` removes.
pub open spec fn ascii_whitespace(b: u8) -> bool {
    b == 0x20 || b == 0x09 || b == 0x0a || b == 0x0c || b == 0x0d
}

/// Some byte is not ASCII whitespace: trimming leaves something.
pub open spec fn has_visible_byte(s: Seq<u8>) -> bool {
    exists|i: int| 0 <= i < s.len() && !ascii_whitespace(#[trigger] s[i])
}

/// Whether `git config user.name` reported a name: it succeeded and printed
/// something besides ASCII whitespace.
pub fn git_name_configured(success: bool, stdout: &Vec<u8>) -> (r: bool)
    ensures
        r == (success && has_visible_byte(stdout@)),
{
    if !success {
        return false;
    }
    let mut i: usize = 0;
    while i < stdout.len()
        invariant
            success,
            i <= stdout.len(),
            forall|j: int| 0 <= j < i ==> ascii_whitespace(#[trigger] stdout@[j]),
        decreases stdout.len() - i,
    {
        let b = stdout[i];
        if !(b == 0x20 || b == 0x09 || b == 0x0a || b == 0x0c || b == 0x0d) {
            assert(b == stdout@[i as int]);
            assert(!ascii_whitespace(stdout@[i as int]));
            assert(has_visible_byte(stdout@));
            return true;
        }
        i = i + 1;
    }
    false
}

/// The texts are in the order of `str`.
pub open spec fn names_sorted(s: Seq<String>) -> bool {
    forall|i: int, j: int| 0 <= i < j < s.len() ==> text_le(s[i]@, s[j]@)
}

/// Puts names in the order of `str` (the order of `Vec::<String>::sort`).
#[verifier::rlimit(40)]
pub fn sort_names(names: Vec<String>) -> (r: Vec<String>)
    ensures
        names_sorted(r@),
        r@.to_multiset() == names@.to_multiset(),
{
    broadcast use vstd::std_specs::vec::group_vec_axioms;
    broadcast use vstd::seq_lib::group_to_multiset_ensures;

    let ghost input = names@;
    let mut out: Vec<String> = Vec::new();
    proof {
        assert(input.take(0) =~= Seq::<String>::empty());
        assert(out@ =~= Seq::<String>::empty());
    }
    for e in it: names
        invariant
            it.seq() == input,
            names_sorted(out@),
            out@.to_multiset() == input.take(it.index() as int).to_multiset(),
    {
        let ghost i = it.index() as int;
        let key = chars_of(e.as_str());
        let mut pos: usize = 0;
        while pos < out.len() && text_le_exec(&chars_of(out[pos].as_str()), &key)
            invariant
                pos <= out.len(),
                key@ == e@,
                forall|j: int| 0 <= j < pos ==> text_le((#[trigger] out@[j])@, e@),
            decreases out.len() - pos,
        {
            pos = pos + 1;
        }
        let ghost before = out@;
        proof {
            if pos < before.len() {
                lemma_text_le_total(before[pos as int]@, e@);
            }
        }
        out.insert(pos, e);
        proof {
            assert(input[i] == e);
            assert(input.take(i + 1) =~= input.take(i).push(e));
            vstd::seq_lib::to_multiset_insert(before, pos as int, e);
            vstd::seq_lib::to_multiset_build(input.take(i), e);
            assert(out@ == before.insert(pos as int, e));
            assert(before.to_multiset() == input.take(i).to_multiset());
            assert(out@.to_multiset() == input.take(i + 1).to_multiset());
            assert forall|a: int, b: int| 0 <= a < b < out@.len() implies text_le(out@[a]@, out@[b]@) by {
                if b < pos {
                    assert(out@[a] == before[a] && out@[b] == before[b]);
                } else if b == pos {
                    assert(out@[a] == before[a]);
                } else if a < pos {
                    assert(out@[a] == before[a] && out@[b] == before[b - 1]);
                } else if a == pos {
                    assert(out@[b] == before[b - 1]);
                    if b - 1 > pos {
                        lemma_text_le_transitive(e@, before[pos as int]@, before[b - 1]@);
                    }
                } else {
                    assert(out@[a] == before[a - 1] && out@[b] == before[b - 1]);
                }
            }
        }
    }
    proof {
        assert(input.take(input.len() as int) =~= input);
    }
    out
}

/// The names joined with `, ` between each two.
pub open spec fn join_comma(names: Seq<Seq<char>>) -> Seq<char>
    decreases names.len(),
{
    if names.len() == 0 {
        Seq::<char>::empty()
    } else if names.len() == 1 {
        names[0]
    } else {
        join_comma(names.drop_last()) + ", "@ + names.last()
    }
}

/// At most this many unrelated names are listed.
pub const SHOWN_UNRELATED: usize = 5;

/// The list of unrelated names in the refusal: the first five, joined by
/// commas, and how many more there are.
pub open spec fn unrelated_list(sorted: Seq<String>) -> Seq<char> {
    let shown = if sorted.len() < 5 {
        sorted.len() as int
    } else {
        5
    };
    join_comma(sorted.take(shown).map_values(|s: String| s@)) + if sorted.len() > shown {
        ", and "@ + decimal((sorted.len() - shown) as nat) + " more"@
    } else {
        Seq::<char>::empty()
    }
}

/// A target directory that holds unrelated entries.
#[derive(Debug)]
pub struct UnrelatedTarget {
    /// The target, as displayed.
    pub target: String,
    /// The unrelated entries, in the order of `str`.
    pub entries: Vec<String>,
}

/// The refusal to scaffold into a directory holding unrelated entries.
pub open spec fn unrelated_message(target: Seq<char>, sorted: Seq<String>) -> Seq<char> {
    target + " contains unrelated files ("@ + unrelated_list(sorted)
        + ") and doesn't look like a query/dashboard repository.\nPick an empty or dedicated subdirectory instead, e.g.:\n  stmo-cli init "@
        + target + "/stmo-queries"@
}

impl UnrelatedTarget {
    /// The message that refuses the target and suggests a subdirectory.
    #[verifier::rlimit(40)]
    pub fn to_string(&self) -> (r: String)
        ensures
            r@ == unrelated_message(self.target@, self.entries@),
    {
        let ghost sorted = self.entries@;
        let ghost views = sorted.map_values(|s: String| s@);
        let n = self.entries.len();
        let shown = if n < SHOWN_UNRELATED {
            n
        } else {
            SHOWN_UNRELATED
        };
        let mut list: Vec<char> = Vec::new();
        let mut i: usize = 0;
        while i < shown
            invariant
                i <= shown <= n,
                n == self.entries@.len(),
                sorted == self.entries@,
                views == sorted.map_values(|s: String| s@),
                list@ == join_comma(views.take(i as int)),
            decreases shown - i,
        {
            let ghost prev = views.take(i as int);
            if i > 0 {
                let sep = chars_of(", ");
                extend_chars(&mut list, &sep);
            }
            let name = chars_of(self.entries[i].as_str());
            extend_chars(&mut list, &name);
            proof {
                let next = views.take(i + 1);
                assert(next.drop_last() =~= prev);
                assert(next.last() == self.entries@[i as int]@);
                if i == 0 {
                    assert(prev.len() == 0);
                    assert(list@ =~= next[0]);
                }
            }
            i = i + 1;
        }
        assert(views.take(shown as int) =~= sorted.take(shown as int).map_values(|s: String| s@));
        if n > shown {
            let more = chars_of(", and ");
            extend_chars(&mut list, &more);
            push_decimal(&mut list, (n - shown) as u64);
            let tail = chars_of(" more");
            extend_chars(&mut list, &tail);
        } else {
            assert(list@ + Seq::<char>::empty() =~= list@);
        }
        let target = chars_of(self.target.as_str());
        let mut out: Vec<char> = Vec::new();
        extend_chars(&mut out, &target);
        let a = chars_of(" contains unrelated files (");
        extend_chars(&mut out, &a);
        extend_chars(&mut out, &list);
        let b = chars_of(
            ") and doesn't look like a query/dashboard repository.\nPick an empty or dedicated subdirectory instead, e.g.:\n  stmo-cli init ",
        );
        extend_chars(&mut out, &b);
        extend_chars(&mut out, &target);
        let c = chars_of("/stmo-queries");
        extend_chars(&mut out, &c);
        assert(out@ =~= unrelated_message(self.target@, self.entries@));
        string_of(&out)
    }
}

/// Accepts a target that is new, empty or already a scaffold; refuses one
/// with unrelated entries, listing them in order.
pub fn check_target(state: TargetState, target: &str) -> (r: Result<TargetState, UnrelatedTarget>)
    ensures
        match state {
            TargetState::Unrelated(u) => r matches Err(e) && e.target@ == target@ && names_sorted(e.entries@)
                && e.entries@.to_multiset() == u@.to_multiset(),
            TargetState::New => r matches Ok(TargetState::New),
            TargetState::Empty => r matches Ok(TargetState::Empty),
            TargetState::ExistingScaffold => r matches Ok(TargetState::ExistingScaffold),
        },
{
    match state {
        TargetState::Unrelated(entries) => {
            let sorted = sort_names(entries);
            Err(UnrelatedTarget { target: target.to_owned(), entries: sorted })
        },
        other => Ok(other),
    }
}

/// What scaffolding did: how many files and directories it created, and
/// whether it committed them.
#[derive(Debug, Clone, Copy, PartialEq, Eq, Structural)]
pub struct Summary {
    pub files_created: usize,
    pub committed: bool,
}

/// The closing lines after scaffolding into `target` (displayed as given;
/// `is_current` when it is the current directory).
pub open spec fn closing_lines(target: Seq<char>, is_current: bool, c: InitChoices, s: Summary) -> Seq<
    Seq<char>,
> {
    if s.files_created == 0 {
        seq!["\n✓ Repository already initialized"@]
    } else {
        seq!["\n✓ Repository scaffolded successfully"@] + (if c.git && !s.committed {
            if c.commit {
                seq!["  (nothing new to commit)"@]
            } else {
                seq![
                    "  Nothing committed. To commit: git -C "@ + target + " add . && git -C "@ + target
                        + " commit -m \"Initial commit\""@,
                ]
            }
        } else if !c.git {
            seq![
                "  Tip: to version these files, run: git -C "@ + target + " init && git -C "@ + target
                    + " add . && git -C "@ + target + " commit -m \"Initial commit\""@,
            ]
        } else {
            Seq::<Seq<char>>::empty()
        }) + seq!["\nNext steps:"@] + (if !is_current {
            seq!["  0. cd "@ + target]
        } else {
            Seq::<Seq<char>>::empty()
        }) + seq![
            "  1. Set REDASH_API_KEY environment variable"@,
            "  2. Run 'stmo-cli discover' to see available queries"@,
            "  3. Run 'stmo-cli fetch <id>' to download queries"@,
            "  4. Run 'stmo-cli deploy' to push changes back to Redash"@,
        ]
    }
}

/// Appends the line made of `lit`.
fn push_line(lines: &mut Vec<String>, lit: &str)
    ensures
        final(lines)@.len() == old(lines)@.len() + 1,
        forall|i: int| 0 <= i < old(lines)@.len() ==> final(lines)@[i] == old(lines)@[i],
        final(lines)@[old(lines)@.len() as int]@ == lit@,
{
    let c = chars_of(lit);
    lines.push(string_of(&c));
}

/// The views of the lines.
pub open spec fn line_views(lines: Seq<String>) -> Seq<Seq<char>> {
    lines.map_values(|l: String| l@)
}

/// Writes the closing lines printed after scaffolding.
pub fn closing_message(target: &str, is_current: bool, choices: &InitChoices, summary: &Summary) -> (r: Vec<
    String,
>)
    ensures
        line_views(r@) == closing_lines(target@, is_current, *choices, *summary),
{
    let mut lines: Vec<String> = Vec::new();
    if summary.files_created == 0 {
        push_line(&mut lines, "\n✓ Repository already initialized");
        assert(line_views(lines@) =~= closing_lines(target@, is_current, *choices, *summary));
        return lines;
    }
    let t = chars_of(target);
    push_line(&mut lines, "\n✓ Repository scaffolded successfully");
    if choices.git && !summary.committed {
        if choices.commit {
            push_line(&mut lines, "  (nothing new to commit)");
        } else {
            let mut l = chars_of("  Nothing committed. To commit: git -C ");
            extend_chars(&mut l, &t);
            let a = chars_of(" add . && git -C ");
            extend_chars(&mut l, &a);
            extend_chars(&mut l, &t);
            let b = chars_of(" commit -m \"Initial commit\"");
            extend_chars(&mut l, &b);
            lines.push(string_of(&l));
        }
    } else if !choices.git {
        let mut l = chars_of("  Tip: to version these files, run: git -C ");
        extend_chars(&mut l, &t);
        let a = chars_of(" init && git -C ");
        extend_chars(&mut l, &a);
        extend_chars(&mut l, &t);
        let b = chars_of(" add . && git -C ");
        extend_chars(&mut l, &b);
        extend_chars(&mut l, &t);
        let c = chars_of(" commit -m \"Initial commit\"");
        extend_chars(&mut l, &c);
        lines.push(string_of(&l));
    }
    push_line(&mut lines, "\nNext steps:");
    if !is_current {
        let mut l = chars_of("  0. cd ");
        extend_chars(&mut l, &t);
        lines.push(string_of(&l));
    }
    push_line(&mut lines, "  1. Set REDASH_API_KEY environment variable");
    push_line(&mut lines, "  2. Run 'stmo-cli discover' to see available queries");
    push_line(&mut lines, "  3. Run 'stmo-cli fetch <id>' to download queries");
    push_line(&mut lines, "  4. Run 'stmo-cli deploy' to push changes back to Redash");
    assert(line_views(lines@) =~= closing_lines(target@, is_current, *choices, *summary));
    lines
}

/// The names a scaffold leaves at the top of its target: the directories
/// and every file `init` may write.
pub open spec fn scaffold_name(name: Seq<char>) -> bool {
    scaffold_directories().contains(name) || known_scaffold_paths().contains(name)
}

/// Whatever the choices, every file the scaffold writes is one of the known
/// scaffold paths, and the pre-commit config is written only with git and
/// pre-commit chosen.
pub proof fn lemma_planned_files_known(c: InitChoices)
    ensures
        forall|i: int|
            0 <= i < planned_files(c).len() ==> known_scaffold_paths().contains(
                (#[trigger] planned_files(c)[i]).path@,
            ),
        forall|i: int|
            0 <= i < planned_files(c).len() && (#[trigger] planned_files(c)[i]).path@
                == ".pre-commit-config.yaml"@ ==> c.git && c.precommit,
{
    reveal_strlit(".gitignore");
    reveal_strlit(".sqlfluff");
    reveal_strlit(".yamllint");
    reveal_strlit(".pre-commit-config.yaml");
    reveal_strlit("AGENTS.md");
    let k = known_scaffold_paths();
    let p = planned_files(c);
    assert forall|i: int| 0 <= i < p.len() implies k.contains((#[trigger] p[i]).path@) && (p[i].path@
        == ".pre-commit-config.yaml"@ ==> c.git && c.precommit) by {
        let f = p[i];
        if f == gitignore_file() {
            assert(k[0] == f.path@);
        } else if f == sqlfluff_file() {
            assert(k[1] == f.path@);
        } else if f == yamllint_file() {
            assert(k[2] == f.path@);
        } else if f == precommit_file() {
            assert(k[3] == f.path@);
        } else {
            assert(f == claude_md_file());
            assert(k[4] == f.path@);
        }
        if f.path@ == ".pre-commit-config.yaml"@ {
            assert(".pre-commit-config.yaml"@.len() == 23);
            assert(".gitignore"@.len() == 10);
            assert(".sqlfluff"@.len() == 9);
            assert(".yamllint"@.len() == 9);
            assert("AGENTS.md"@.len() == 9);
            assert(f == precommit_file());
        }
    }
}

/// A README or LICENSE file, whatever follows those letters in its name
/// (nothing included), never makes the target look unrelated.
pub proof fn lemma_readme_and_license_tolerated(name: Seq<char>)
    requires
        (name.len() >= 6 && name.take(6) == seq!['R', 'E', 'A', 'D', 'M', 'E']) || (name.len() >= 7 && name.take(7)
            == seq!['L', 'I', 'C', 'E', 'N', 'S', 'E']),
    ensures
        tolerated(name),
{
    reveal_strlit("README");
    reveal_strlit("LICENSE");
    assert("README"@ =~= seq!['R', 'E', 'A', 'D', 'M', 'E']);
    assert("LICENSE"@ =~= seq!['L', 'I', 'C', 'E', 'N', 'S', 'E']);
}

/// The usual names of a query/dashboard repository never make the target
/// look unrelated.
pub proof fn lemma_repository_names_tolerated(name: Seq<char>)
    requires
        name == ".gitignore"@ || name == ".sqlfluff"@ || name == ".yamllint"@ || name == ".pre-commit-config.yaml"@
            || name == "queries"@ || name == "dashboards"@ || name == "snippets"@ || name == ".git"@ || name
            == ".github"@ || name == ".DS_Store"@,
    ensures
        tolerated(name),
{
    let k = known_scaffold_paths();
    let t = tolerated_names();
    if name == ".gitignore"@ {
        assert(k[0] == name);
    } else if name == ".sqlfluff"@ {
        assert(k[1] == name);
    } else if name == ".yamllint"@ {
        assert(k[2] == name);
    } else if name == ".pre-commit-config.yaml"@ {
        assert(k[3] == name);
    } else if name == "queries"@ {
        assert(t[0] == name);
    } else if name == "dashboards"@ {
        assert(t[1] == name);
    } else if name == "snippets"@ {
        assert(t[2] == name);
    } else if name == ".git"@ {
        assert(t[3] == name);
    } else if name == ".github"@ {
        assert(t[4] == name);
    } else {
        assert(t[5] == name);
    }
}

/// Any other name makes the target look unrelated: neither a scaffold
/// file, nor a usual repository name, nor a README or LICENSE file.
pub proof fn lemma_other_names_unrelated(name: Seq<char>)
    requires
        name != ".gitignore"@ && name != ".sqlfluff"@ && name != ".yamllint"@ && name != ".pre-commit-config.yaml"@
            && name != "AGENTS.md"@ && name != "queries"@ && name != "dashboards"@ && name != "snippets"@ && name
            != ".git"@ && name != ".github"@ && name != ".DS_Store"@,
        !(name.len() >= 6 && name.take(6) == seq!['R', 'E', 'A', 'D', 'M', 'E']),
        !(name.len() >= 7 && name.take(7) == seq!['L', 'I', 'C', 'E', 'N', 'S', 'E']),
    ensures
        !tolerated(name),
{
    reveal_strlit("README");
    reveal_strlit("LICENSE");
    assert("README"@ =~= seq!['R', 'E', 'A', 'D', 'M', 'E']);
    assert("LICENSE"@ =~= seq!['L', 'I', 'C', 'E', 'N', 'S', 'E']);
    let k = known_scaffold_paths();
    let t = tolerated_names();
    assert(!k.contains(name)) by {
        if k.contains(name) {
            let i = choose|i: int| 0 <= i < k.len() && k[i] == name;
            assert(false);
        }
    }
    assert(!t.contains(name)) by {
        if t.contains(name) {
            let i = choose|i: int| 0 <= i < t.len() && t[i] == name;
            assert(false);
        }
    }
}

/// A directory whose every entry is tolerated holds nothing unrelated, so
/// `classify_entries` recognises it as an existing scaffold.
pub proof fn lemma_tolerated_directory_accepted(entries: Seq<String>)
    requires
        forall|i: int| 0 <= i < entries.len() ==> tolerated(#[trigger] entries[i]@),
    ensures
        unrelated_entries(entries).len() == 0,
    decreases entries.len(),
{
    reveal(Seq::filter);
    if entries.len() > 0 {
        let front = entries.drop_last();
        assert forall|i: int| 0 <= i < front.len() implies tolerated(#[trigger] front[i]@) by {
            assert(front[i] == entries[i]);
        }
        lemma_tolerated_directory_accepted(front);
        assert(tolerated(entries[entries.len() - 1]@));
    }
}

/// A directory that holds only what a scaffold leaves is recognised as an
/// existing scaffold: running `init` again on it is allowed.
pub proof fn lemma_rerun_accepted(entries: Seq<String>)
    requires
        forall|i: int| 0 <= i < entries.len() ==> scaffold_name(#[trigger] entries[i]@),
    ensures
        unrelated_entries(entries).len() == 0,
    decreases entries.len(),
{
    reveal(Seq::filter);
    if entries.len() > 0 {
        lemma_rerun_accepted(entries.drop_last());
        let e = entries.last();
        assert(scaffold_name(e@));
        let d = scaffold_directories();
        let t = tolerated_names();
        if d.contains(e@) {
            let j = choose|j: int| 0 <= j < d.len() && d[j] == e@;
            if j == 0 {
                assert(t[0] == e@);
            } else {
                assert(t[1] == e@);
            }
        }
        assert(tolerated(e@));
    }
}

} // verus!
