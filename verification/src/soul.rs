//! The agent's workspace: where it lies, which files it starts with, and how the
//! agent's identity is read.

use crate::soul_defaults;
use crate::text;
use vstd::prelude::*;
use vstd::string::*;

verus! {

// ── Where it lies ────────────────────────────────────────────────────────

/// Where the workspace lies.
#[derive(Debug)]
pub enum WorkspaceDir {
    /// At the path as it was given.
    Given(String),
    /// At a path below a directory.
    Below { base: String, path: String },
}

#[verifier::ext_equal]
pub enum WorkspaceDirView {
    Given(Seq<char>),
    Below { base: Seq<char>, path: Seq<char> },
}

impl View for WorkspaceDir {
    type V = WorkspaceDirView;

    open spec fn view(&self) -> WorkspaceDirView {
        match self {
            WorkspaceDir::Given(p) => WorkspaceDirView::Given(p@),
            WorkspaceDir::Below { base, path } => WorkspaceDirView::Below {
                base: base@,
                path: path@,
            },
        }
    }
}

/// Where the workspace lies: a path that is absolute is taken as it is, another
/// one below the current directory, or below `.` if that is not known.
pub fn resolve_workspace_dir(raw: &str, absolute: bool, current: Option<&str>) -> (r: WorkspaceDir)
    ensures
        r@ == if absolute {
            WorkspaceDirView::Given(raw@)
        } else {
            WorkspaceDirView::Below {
                base: match current {
                    Some(dir) => dir@,
                    None => "."@,
                },
                path: raw@,
            }
        },
{
    if absolute {
        WorkspaceDir::Given(raw.to_owned())
    } else {
        let base: String = match current {
            Some(dir) => dir.to_owned(),
            None => ".".to_owned(),
        };
        WorkspaceDir::Below { base, path: raw.to_owned() }
    }
}

// ── The identity ─────────────────────────────────────────────────────────

/// How the agent's identity is written down.
#[derive(Debug)]
pub struct IdentityConfig {
    pub format: String,
    pub aieos_path: Option<String>,
    pub aieos_inline: Option<String>,
}

/// The format that a setting names, the letter case and white space around it
/// aside. A format that is not known counts as the usual one.
pub open spec fn identity_format(setting: Seq<char>) -> Seq<char> {
    if text::same_but_case(text::trim(setting), "aieos"@) {
        "aieos"@
    } else {
        "openclaw"@
    }
}

/// How the agent's identity is written down, by the setting.
pub fn build_identity_config(format: &str) -> (r: IdentityConfig)
    ensures
        r.format@ == identity_format(format@),
        r.aieos_path is None,
        r.aieos_inline is None,
{
    let trimmed = text::trimmed(text::chars_of(format).as_slice());
    let format: &str = if text::equal_but_case(
        trimmed.as_slice(),
        text::chars_of("aieos").as_slice(),
    ) {
        "aieos"
    } else {
        "openclaw"
    };
    IdentityConfig { format: format.to_owned(), aieos_path: None, aieos_inline: None }
}

// ── The files ────────────────────────────────────────────────────────────

/// The file that tells that the workspace was filled.
pub const SEED_MARKER: &'static str = ".seeded";

/// What an optional file starts with.
pub const PLACEHOLDER: &'static str = "\n";

/// A file of the workspace.
#[derive(Debug)]
pub struct SoulFile {
    pub name: String,
    pub content: String,
}

impl View for SoulFile {
    type V = (Seq<char>, Seq<char>);

    open spec fn view(&self) -> (Seq<char>, Seq<char>) {
        (self.name@, self.content@)
    }
}

impl DeepView for SoulFile {
    type V = (Seq<char>, Seq<char>);

    open spec fn deep_view(&self) -> (Seq<char>, Seq<char>) {
        self@
    }
}

/// What the marker says.
pub open spec fn marker_text(unix_secs: u64) -> Seq<char> {
    "seeded_at_unix = "@ + text::decimal(unix_secs as nat) + "\nformat = \"openclaw\"\n"@
}

/// A file that starts with a title.
pub open spec fn titled(title: Seq<char>, body: Seq<char>) -> Seq<char> {
    "# "@ + title + "\n\n"@ + body
}

/// The files that tell the agent who it is, with their default contents.
pub open spec fn core_files() -> Seq<(Seq<char>, Seq<char>)> {
    seq![
        ("SOUL.md"@, titled("SOUL"@, soul_defaults::SOUL@)),
        ("AGENTS.md"@, titled("AGENTS"@, soul_defaults::AGENTS@)),
        ("IDENTITY.md"@, titled("IDENTITY"@, soul_defaults::IDENTITY@)),
        ("TOOLS.md"@, titled("TOOLS"@, soul_defaults::TOOLS@)),
        ("USER.md"@, titled("USER"@, soul_defaults::USER@)),
    ]
}

/// All the files that a workspace has: those with default contents, the optional
/// ones, and the marker.
pub open spec fn all_files(unix_secs: u64) -> Seq<(Seq<char>, Seq<char>)> {
    core_files() + seq![
        ("HEARTBEAT.md"@, PLACEHOLDER@),
        ("MEMORY.md"@, PLACEHOLDER@),
        (SEED_MARKER@, marker_text(unix_secs)),
    ]
}

/// Those of the files that are not there.
pub open spec fn missing(
    files: Seq<(Seq<char>, Seq<char>)>,
    existing: Seq<Seq<char>>,
) -> Seq<(Seq<char>, Seq<char>)>
    decreases files.len(),
{
    if files.len() == 0 {
        files
    } else {
        let front = missing(files.drop_last(), existing);
        if existing.contains(files.last().0) {
            front
        } else {
            front.push(files.last())
        }
    }
}

/// What is done to fill a workspace.
#[derive(Debug)]
pub struct SeedPlan {
    /// The files that are written.
    pub writes: Vec<SoulFile>,
    /// How many files with default contents are written.
    pub seeded: usize,
    /// How many of them are there already.
    pub skipped: usize,
}

fn is_there(existing: &Vec<String>, name: &str) -> (r: bool)
    ensures
        r == existing.deep_view().contains(name@),
{
    let ghost all = existing.deep_view();
    for i in 0..existing.len()
        invariant
            all == existing.deep_view(),
            forall|j: int| 0 <= j < i ==> (#[trigger] all[j]) != name@,
    {
        assert(all[i as int] == existing@[i as int]@);
        if text::same_text(existing[i].as_str(), name) {
            return true;
        }
    }
    false
}

fn plan_file(writes: &mut Vec<SoulFile>, existing: &Vec<String>, name: &str, content: &str)
    ensures
        final(writes).deep_view() == if existing.deep_view().contains(name@) {
            old(writes).deep_view()
        } else {
            old(writes).deep_view().push((name@, content@))
        },
{
    let ghost before = writes.deep_view();
    if !is_there(existing, name) {
        writes.push(SoulFile { name: name.to_owned(), content: content.to_owned() });
        assert(writes.deep_view() =~= before.push((name@, content@)));
    }
}

fn plan_core(
    writes: &mut Vec<SoulFile>,
    existing: &Vec<String>,
    name: &str,
    title: &str,
    body: &str,
)
    ensures
        final(writes).deep_view() == if existing.deep_view().contains(name@) {
            old(writes).deep_view()
        } else {
            old(writes).deep_view().push((name@, titled(title@, body@)))
        },
{
    let mut content = "# ".to_owned();
    content.append(title);
    content.append("\n\n");
    content.append(body);
    plan_file(writes, existing, name, content.as_str());
}

fn marker_of(unix_secs: u64) -> (r: String)
    ensures
        r@ == marker_text(unix_secs),
{
    let mut marker = "seeded_at_unix = ".to_owned();
    text::push_decimal(&mut marker, unix_secs);
    marker.append("\nformat = \"openclaw\"\n");
    marker
}

/// What is done to fill a workspace in which the files `existing` are there:
/// those that are not there are written, the other ones are left alone.
pub fn plan_workspace(existing: &Vec<String>, unix_secs: u64) -> (r: SeedPlan)
    ensures
        r.writes.deep_view() == missing(all_files(unix_secs), existing.deep_view()),
        r.seeded == missing(core_files(), existing.deep_view()).len(),
        r.seeded + r.skipped == core_files().len(),
{
    let mut writes: Vec<SoulFile> = Vec::new();
    let ghost there = existing.deep_view();
    let ghost files = all_files(unix_secs);
    proof {
        assert(writes.deep_view() =~= missing(files.take(0), there));
        assert(files.take(5) =~= core_files());
        assert(files.take(8) =~= files);
        assert forall|n: int| 1 <= n <= 8 implies #[trigger] missing(files.take(n), there) == {
            let front = missing(files.take(n - 1), there);
            if there.contains(files[n - 1].0) {
                front
            } else {
                front.push(files[n - 1])
            }
        } by {
            assert(files.take(n).drop_last() =~= files.take(n - 1));
        }
    }
    plan_core(&mut writes, existing, "SOUL.md", "SOUL", soul_defaults::SOUL);
    assert(writes.deep_view() == missing(files.take(1), there));
    plan_core(&mut writes, existing, "AGENTS.md", "AGENTS", soul_defaults::AGENTS);
    assert(writes.deep_view() == missing(files.take(2), there));
    plan_core(&mut writes, existing, "IDENTITY.md", "IDENTITY", soul_defaults::IDENTITY);
    assert(writes.deep_view() == missing(files.take(3), there));
    plan_core(&mut writes, existing, "TOOLS.md", "TOOLS", soul_defaults::TOOLS);
    assert(writes.deep_view() == missing(files.take(4), there));
    plan_core(&mut writes, existing, "USER.md", "USER", soul_defaults::USER);
    assert(writes.deep_view() == missing(files.take(5), there));
    let seeded: usize = writes.len();
    proof {
        assert(writes.deep_view().len() == seeded);
        lemma_missing_len(core_files(), there);
    }
    let skipped: usize = 5 - seeded;
    plan_file(&mut writes, existing, "HEARTBEAT.md", PLACEHOLDER);
    assert(writes.deep_view() == missing(files.take(6), there));
    plan_file(&mut writes, existing, "MEMORY.md", PLACEHOLDER);
    assert(writes.deep_view() == missing(files.take(7), there));
    plan_file(&mut writes, existing, SEED_MARKER, marker_of(unix_secs).as_str());
    assert(writes.deep_view() == missing(files.take(8), there));
    SeedPlan { writes, seeded, skipped }
}

proof fn lemma_missing_len(files: Seq<(Seq<char>, Seq<char>)>, existing: Seq<Seq<char>>)
    ensures
        missing(files, existing).len() <= files.len(),
    decreases files.len(),
{
    if files.len() > 0 {
        lemma_missing_len(files.drop_last(), existing);
    }
}

// ── What becomes of a workspace ──────────────────────────────────────────

/// The contents of a workspace, by the files' names, once the files were written.
pub open spec fn after_writes(
    workspace: Map<Seq<char>, Seq<char>>,
    writes: Seq<(Seq<char>, Seq<char>)>,
) -> Map<Seq<char>, Seq<char>>
    decreases writes.len(),
{
    if writes.len() == 0 {
        workspace
    } else {
        after_writes(workspace, writes.drop_last()).insert(writes.last().0, writes.last().1)
    }
}

/// Whether a list tells of each of the files whether it is in a workspace.
pub open spec fn tells_which(
    existing: Seq<Seq<char>>,
    files: Seq<(Seq<char>, Seq<char>)>,
    workspace: Map<Seq<char>, Seq<char>>,
) -> bool {
    forall|i: int|
        0 <= i < files.len() ==> (existing.contains((#[trigger] files[i]).0)
            <==> workspace.contains_key(files[i].0))
}

/// No file that is there is ever written: what a user edited is kept.
pub proof fn law_existing_files_are_kept(
    files: Seq<(Seq<char>, Seq<char>)>,
    existing: Seq<Seq<char>>,
)
    ensures
        forall|i: int|
            0 <= i < missing(files, existing).len() ==> !existing.contains(
                (#[trigger] missing(files, existing)[i]).0,
            ),
    decreases files.len(),
{
    if files.len() > 0 {
        let front = missing(files.drop_last(), existing);
        let all = missing(files, existing);
        law_existing_files_are_kept(files.drop_last(), existing);
        assert forall|i: int| 0 <= i < all.len() implies !existing.contains(
            (#[trigger] all[i]).0,
        ) by {
            if i < front.len() {
                assert(all[i] == front[i]);
            }
        }
    }
}

/// Every file that is not there is written.
pub proof fn law_missing_files_are_written(
    files: Seq<(Seq<char>, Seq<char>)>,
    existing: Seq<Seq<char>>,
    i: int,
)
    requires
        0 <= i < files.len(),
        !existing.contains(files[i].0),
    ensures
        missing(files, existing).contains(files[i]),
    decreases files.len(),
{
    let front = files.drop_last();
    let after = missing(files, existing);
    if i == files.len() - 1 {
        assert(after.last() == files[i]);
    } else {
        law_missing_files_are_written(front, existing, i);
        let before = missing(front, existing);
        let j = choose|j: int| 0 <= j < before.len() && before[j] == front[i];
        assert(after[j] == files[i]);
    }
}

/// Every file with default contents says something.
pub proof fn law_default_files_say_something()
    ensures
        forall|i: int|
            0 <= i < core_files().len() ==> text::trim((#[trigger] core_files()[i]).1).len() > 0,
{
    assert forall|i: int| 0 <= i < core_files().len() implies text::trim(
        (#[trigger] core_files()[i]).1,
    ).len() > 0 by {
        reveal_strlit("# ");
        text::lemma_trim_keeps(core_files()[i].1);
    }
}

/// Filling a workspace keeps what is in it. Each file that is not there has its
/// default contents afterwards, and no other file comes in.
pub proof fn law_workspace_is_filled(
    workspace: Map<Seq<char>, Seq<char>>,
    existing: Seq<Seq<char>>,
    unix_secs: u64,
)
    requires
        tells_which(existing, all_files(unix_secs), workspace),
    ensures
        ({
            let files = all_files(unix_secs);
            let after = after_writes(workspace, missing(files, existing));
            &&& forall|name: Seq<char>| #[trigger]
                workspace.contains_key(name) ==> after.contains_key(name) && after[name]
                    == workspace[name]
            &&& forall|i: int|
                0 <= i < files.len() && !workspace.contains_key((#[trigger] files[i]).0)
                    ==> after.contains_key(files[i].0) && after[files[i].0] == files[i].1
            &&& forall|name: Seq<char>| #[trigger]
                after.contains_key(name) ==> workspace.contains_key(name) || exists|i: int|
                    0 <= i < files.len() && (#[trigger] files[i]).0 == name
        }),
{
    lemma_names_differ(unix_secs);
    lemma_filled(workspace, all_files(unix_secs), existing);
}

/// Filling a workspace that was filled changes nothing, whenever it is done.
pub proof fn law_filling_twice_changes_nothing(
    workspace: Map<Seq<char>, Seq<char>>,
    existing: Seq<Seq<char>>,
    unix_secs: u64,
    later: Seq<Seq<char>>,
    later_secs: u64,
)
    requires
        tells_which(existing, all_files(unix_secs), workspace),
        tells_which(
            later,
            all_files(later_secs),
            after_writes(workspace, missing(all_files(unix_secs), existing)),
        ),
    ensures
        ({
            let after = after_writes(workspace, missing(all_files(unix_secs), existing));
            after_writes(after, missing(all_files(later_secs), later)) == after
        }),
{
    let files = all_files(later_secs);
    let first = all_files(unix_secs);
    law_workspace_is_filled(workspace, existing, unix_secs);
    assert forall|i: int| 0 <= i < files.len() implies later.contains((#[trigger] files[i]).0) by {
        assert(first[i].0 == files[i].0);
    }
    lemma_nothing_missing(files, later);
}

proof fn lemma_names_differ(unix_secs: u64)
    ensures
        ({
            let files = all_files(unix_secs);
            forall|i: int, j: int|
                0 <= i < j < files.len() ==> (#[trigger] files[i]).0 != (#[trigger] files[j]).0
        }),
{
    reveal_strlit("SOUL.md");
    reveal_strlit("AGENTS.md");
    reveal_strlit("IDENTITY.md");
    reveal_strlit("TOOLS.md");
    reveal_strlit("USER.md");
    reveal_strlit("HEARTBEAT.md");
    reveal_strlit("MEMORY.md");
    reveal_strlit(".seeded");
    let files = all_files(unix_secs);
    assert(files[7].0 == ".seeded"@);
    assert forall|i: int, j: int| 0 <= i < j < files.len() implies (#[trigger] files[i]).0 != (
    #[trigger] files[j]).0 by {
        let firsts = seq!['S', 'A', 'I', 'T', 'U', 'H', 'M', '.'];
        assert(forall|k: int| 0 <= k < 8 ==> (#[trigger] files[k]).0[0] == firsts[k]);
        assert(files[i].0[0] != files[j].0[0]);
    }
}

proof fn lemma_filled(
    workspace: Map<Seq<char>, Seq<char>>,
    files: Seq<(Seq<char>, Seq<char>)>,
    existing: Seq<Seq<char>>,
)
    requires
        tells_which(existing, files, workspace),
        forall|i: int, j: int|
            0 <= i < j < files.len() ==> (#[trigger] files[i]).0 != (#[trigger] files[j]).0,
    ensures
        ({
            let after = after_writes(workspace, missing(files, existing));
            &&& forall|name: Seq<char>| #[trigger]
                workspace.contains_key(name) ==> after.contains_key(name) && after[name]
                    == workspace[name]
            &&& forall|i: int|
                0 <= i < files.len() && !workspace.contains_key((#[trigger] files[i]).0)
                    ==> after.contains_key(files[i].0) && after[files[i].0] == files[i].1
            &&& forall|name: Seq<char>| #[trigger]
                after.contains_key(name) ==> workspace.contains_key(name) || exists|i: int|
                    0 <= i < files.len() && (#[trigger] files[i]).0 == name
        }),
    decreases files.len(),
{
    if files.len() > 0 {
        let front = files.drop_last();
        let last = files[files.len() - 1];
        assert forall|i: int| 0 <= i < front.len() implies front[i] == files[i] by {}
        lemma_filled(workspace, front, existing);
        let before = after_writes(workspace, missing(front, existing));
        let after = after_writes(workspace, missing(files, existing));
        if !existing.contains(last.0) {
            assert(missing(files, existing).drop_last() =~= missing(front, existing));
            assert(after == before.insert(last.0, last.1));
        }
        assert forall|i: int|
            0 <= i < files.len() && !workspace.contains_key((#[trigger] files[i]).0) implies
            after.contains_key(files[i].0) && after[files[i].0] == files[i].1 by {
            if i < front.len() {
                assert(front[i] == files[i]);
            }
        }
        assert forall|name: Seq<char>| #[trigger] after.contains_key(name) implies
            workspace.contains_key(name) || exists|i: int|
            0 <= i < files.len() && (#[trigger] files[i]).0 == name by {
            if before.contains_key(name) && !workspace.contains_key(name) {
                let i = choose|i: int| 0 <= i < front.len() && (#[trigger] front[i]).0 == name;
                assert(files[i].0 == name);
            }
        }
    }
}

proof fn lemma_nothing_missing(files: Seq<(Seq<char>, Seq<char>)>, existing: Seq<Seq<char>>)
    requires
        forall|i: int| 0 <= i < files.len() ==> existing.contains((#[trigger] files[i]).0),
    ensures
        missing(files, existing).len() == 0,
    decreases files.len(),
{
    if files.len() > 0 {
        let front = files.drop_last();
        assert(existing.contains(files[files.len() - 1].0));
        assert forall|i: int| 0 <= i < front.len() implies existing.contains(
            (#[trigger] front[i]).0,
        ) by {
            assert(front[i] == files[i]);
        }
        lemma_nothing_missing(front, existing);
    }
}

/// What is said of the workspace at `dir`.
pub open spec fn seed_text(seeded: nat, skipped: nat, dir: Seq<char>) -> Seq<char> {
    if seeded > 0 {
        "[soul] seeded "@ + text::decimal(seeded) + " default file(s) in "@ + dir + " (skipped "@
            + text::decimal(skipped)
            + " existing); edit them freely — they will not be overwritten on next start"@
    } else {
        "[soul] workspace ready at "@ + dir + " ("@ + text::decimal(skipped)
            + " existing file(s) preserved)"@
    }
}

impl SeedPlan {
    /// What is said of the workspace at `dir`.
    pub fn message(&self, dir: &str) -> (r: String)
        ensures
            r@ == seed_text(self.seeded as nat, self.skipped as nat, dir@),
    {
        if self.seeded > 0 {
            let mut s = "[soul] seeded ".to_owned();
            text::push_decimal(&mut s, self.seeded as u64);
            s.append(" default file(s) in ");
            s.append(dir);
            s.append(" (skipped ");
            text::push_decimal(&mut s, self.skipped as u64);
            s.append(" existing); edit them freely — they will not be overwritten on next start");
            s
        } else {
            let mut s = "[soul] workspace ready at ".to_owned();
            s.append(dir);
            s.append(" (");
            text::push_decimal(&mut s, self.skipped as u64);
            s.append(" existing file(s) preserved)");
            s
        }
    }
}

/// The names of the files that a workspace has, in order, and what those with default
/// contents hold under their titles.
pub proof fn law_files_of_a_workspace(unix_secs: u64)
    ensures
        all_files(unix_secs).map_values(|f: (Seq<char>, Seq<char>)| f.0) == seq![
            "SOUL.md"@,
            "AGENTS.md"@,
            "IDENTITY.md"@,
            "TOOLS.md"@,
            "USER.md"@,
            "HEARTBEAT.md"@,
            "MEMORY.md"@,
            ".seeded"@,
        ],
        all_files(unix_secs)[0].1 == "# "@ + "SOUL"@ + "\n\n"@ + soul_defaults::SOUL@,
        all_files(unix_secs)[1].1 == "# "@ + "AGENTS"@ + "\n\n"@ + soul_defaults::AGENTS@,
        all_files(unix_secs)[2].1 == "# "@ + "IDENTITY"@ + "\n\n"@ + soul_defaults::IDENTITY@,
        all_files(unix_secs)[3].1 == "# "@ + "TOOLS"@ + "\n\n"@ + soul_defaults::TOOLS@,
        all_files(unix_secs)[4].1 == "# "@ + "USER"@ + "\n\n"@ + soul_defaults::USER@,
        all_files(unix_secs)[5].1 == "\n"@,
        all_files(unix_secs)[6].1 == "\n"@,
        all_files(unix_secs)[7].1 == "seeded_at_unix = "@ + text::decimal(unix_secs as nat)
            + "\nformat = \"openclaw\"\n"@,
{
    assert(all_files(unix_secs).map_values(|f: (Seq<char>, Seq<char>)| f.0) =~= seq![
        "SOUL.md"@,
        "AGENTS.md"@,
        "IDENTITY.md"@,
        "TOOLS.md"@,
        "USER.md"@,
        "HEARTBEAT.md"@,
        "MEMORY.md"@,
        ".seeded"@,
    ]);
}

/// The files that are written are those that are not there, all of them, in order.
pub proof fn law_writes_what_is_missing(
    files: Seq<(Seq<char>, Seq<char>)>,
    existing: Seq<Seq<char>>,
)
    ensures
        missing(files, existing) == files.filter(
            |f: (Seq<char>, Seq<char>)| !existing.contains(f.0),
        ),
    decreases files.len(),
{
    reveal(Seq::filter);
    if files.len() > 0 {
        law_writes_what_is_missing(files.drop_last(), existing);
    }
}

/// The one other format is taken where it is named, however it is written; everything
/// else is the usual one.
pub proof fn law_identity_formats(setting: Seq<char>)
    ensures
        identity_format(setting) == "aieos"@ <==> text::lower(text::trim(setting)) == seq![
            'a',
            'i',
            'e',
            'o',
            's',
        ],
        identity_format(setting) == "aieos"@ || identity_format(setting) == "openclaw"@,
{
    reveal_strlit("aieos");
    reveal_strlit("openclaw");
    assert("aieos"@ =~= seq!['a', 'i', 'e', 'o', 's']);
    assert(text::lower("aieos"@) =~= "aieos"@);
    assert("aieos"@.len() != "openclaw"@.len());
}

} // verus!
