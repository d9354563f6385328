//! Loading a diff from a version control system: what is compared, which files changed, and what
//! they hold on both sides.

use vstd::prelude::*;

use crate::text::{
    first_occurrences, has_text, holds, law_contained_text_has_surroundings, law_first_occurrences,
    texts,
};
use crate::types::{CommitReference, DiffOptions, FileDiff, FileStatus};
use crate::vcs::{
    answers_binary, answers_changed_files, answers_content, answers_current_branch,
    answers_merge_base, answers_parent, answers_range_files, answers_read, answers_working_files,
    answers_working_parent, content_or_empty, files_or_none, listing, text_or_empty, DiffHost,
    VcsBackend,
};

verus! {

// ---------------------------------------------------------------------------------------------
// The current branch
// ---------------------------------------------------------------------------------------------

/// The name of the branch that an answer tells of, or `unknown`.
pub open spec fn branch_name(reply: Result<Option<String>, String>) -> Seq<char> {
    match reply {
        Ok(Some(name)) => name@,
        _ => "unknown"@,
    }
}

/// The name of the branch that an answer tells of, or `unknown`.
pub fn branch_or_unknown(reply: Result<Option<String>, String>) -> (r: String)
    ensures
        r@ == branch_name(reply),
{
    match reply {
        Ok(Some(name)) => name,
        _ => "unknown".to_string(),
    }
}

/// The branch that is checked out, or `unknown`.
pub fn get_current_branch<B: VcsBackend + ?Sized>(backend: &B) -> (r: String)
    ensures
        exists|reply: Result<Option<String>, String>| #[trigger]
            answers_current_branch(backend, reply) && r@ == branch_name(reply),
{
    let reply = backend.get_current_branch();
    assert(answers_current_branch(backend, reply));
    branch_or_unknown(reply)
}

// ---------------------------------------------------------------------------------------------
// What is compared
// ---------------------------------------------------------------------------------------------

/// Resolved references for diff comparison
pub enum DiffRefs {
    /// Uncommitted changes (working tree vs HEAD)
    WorkingTree,
    /// Single commit (SHA vs SHA^)
    Single(String),
    /// Range between two refs
    Range { from: String, to: String },
    /// Range from a ref to the working tree (range + uncommitted changes).
    RangeToWorkingTree { from: String },
}

/// The view of resolved references.
pub enum Refs {
    WorkingTree,
    Single(Seq<char>),
    Range { from: Seq<char>, to: Seq<char> },
    RangeToWorkingTree { from: Seq<char> },
}

impl View for DiffRefs {
    type V = Refs;

    open spec fn view(&self) -> Refs {
        match self {
            DiffRefs::WorkingTree => Refs::WorkingTree,
            DiffRefs::Single(sha) => Refs::Single(sha@),
            DiffRefs::Range { from, to } => Refs::Range { from: from@, to: to@ },
            DiffRefs::RangeToWorkingTree { from } => Refs::RangeToWorkingTree { from: from@ },
        }
    }
}

/// Where a three-dot range begins: at the merge base, or at `from` if none was found.
pub open spec fn range_start(from: Seq<char>, merge_base: Result<String, String>) -> Seq<char> {
    match merge_base {
        Ok(base) => base@,
        Err(_) => from,
    }
}

/// The warnings about a three-dot range: one if no merge base was found.
pub open spec fn range_warnings(
    from: Seq<char>,
    to: Seq<char>,
    merge_base: Result<String, String>,
) -> Seq<Seq<char>> {
    match merge_base {
        Ok(_) => Seq::empty(),
        Err(e) => seq![
            "Warning: failed to find merge-base for "@ + from + "..."@ + to + ": "@ + e@
                + ". Using '"@ + from + "' as base."@,
        ],
    }
}

/// `refs` is what a three-dot range resolves to, and `warnings` is what is to be said about it.
pub open spec fn resolves_triple_dots<B: VcsBackend + ?Sized>(
    backend: &B,
    from: Seq<char>,
    to: Seq<char>,
    refs: Refs,
    warnings: Seq<Seq<char>>,
) -> bool {
    exists|merge_base: Result<String, String>|
        {
            &&& #[trigger] answers_merge_base(backend, from, to, merge_base)
            &&& refs == Refs::Range { from: range_start(from, merge_base), to }
            &&& warnings == range_warnings(from, to, merge_base)
        }
}

/// `refs` is what a reference resolves to, and `warnings` is what is to be said about it.
pub open spec fn resolves<B: VcsBackend + ?Sized>(
    backend: &B,
    reference: Option<CommitReference>,
    refs: Refs,
    warnings: Seq<Seq<char>>,
) -> bool {
    match reference {
        None => refs == Refs::WorkingTree && warnings == Seq::<Seq<char>>::empty(),
        Some(CommitReference::Single(sha)) => refs == Refs::Single(sha@) && warnings == Seq::<
            Seq<char>,
        >::empty(),
        Some(CommitReference::Range { from, to }) => refs == (Refs::Range { from: from@, to: to@ })
            && warnings == Seq::<Seq<char>>::empty(),
        Some(CommitReference::TripleDots { from, to }) => resolves_triple_dots(
            backend,
            from@,
            to@,
            refs,
            warnings,
        ),
        Some(CommitReference::RangeToWorkingTree { from }) => refs == (
        Refs::RangeToWorkingTree { from: from@ }) && warnings == Seq::<Seq<char>>::empty(),
    }
}

/// Resolves a three-dot range from its merge base.
pub fn resolve_triple_dots(
    from: &str,
    to: &str,
    merge_base: Result<String, String>,
    warnings: &mut Vec<String>,
) -> (r: DiffRefs)
    ensures
        r@ == (Refs::Range { from: range_start(from@, merge_base), to: to@ }),
        texts(final(warnings)@) == texts(old(warnings)@) + range_warnings(from@, to@, merge_base),
{
    let base = match merge_base {
        Ok(base) => {
            assert(texts(warnings@) =~= texts(old(warnings)@) + range_warnings(
                from@,
                to@,
                merge_base,
            ));
            base
        },
        Err(e) => {
            let mut warning = "Warning: failed to find merge-base for ".to_string();
            warning.append(from);
            warning.append("...");
            warning.append(to);
            warning.append(": ");
            warning.append(e.as_str());
            warning.append(". Using '");
            warning.append(from);
            warning.append("' as base.");
            warnings.push(warning);
            assert(texts(warnings@) =~= texts(old(warnings)@) + range_warnings(
                from@,
                to@,
                merge_base,
            ));
            from.to_string()
        },
    };
    DiffRefs::Range { from: base, to: to.to_string() }
}

impl DiffRefs {
    /// Resolves the reference of the options. What is to be said to the user is added to
    /// `warnings`.
    pub fn from_options<B: VcsBackend + ?Sized>(
        options: &DiffOptions,
        backend: &B,
        warnings: &mut Vec<String>,
    ) -> (r: Self)
        ensures
            exists|said: Seq<Seq<char>>|
                #[trigger] resolves(backend, options.reference, r@, said) && texts(
                    final(warnings)@,
                ) == texts(old(warnings)@) + said,
    {
        let ghost nothing = Seq::<Seq<char>>::empty();
        let ghost before = texts(warnings@);
        assert(before + nothing =~= before);
        match &options.reference {
            None => {
                let refs = DiffRefs::WorkingTree;
                assert(resolves(backend, options.reference, refs@, nothing));
                refs
            },
            Some(CommitReference::Single(sha)) => {
                let refs = DiffRefs::Single(sha.clone());
                assert(resolves(backend, options.reference, refs@, nothing));
                refs
            },
            Some(CommitReference::Range { from, to }) => {
                let refs = DiffRefs::Range { from: from.clone(), to: to.clone() };
                assert(resolves(backend, options.reference, refs@, nothing));
                refs
            },
            Some(CommitReference::TripleDots { from, to }) => {
                let merge_base = backend.get_merge_base(from.as_str(), to.as_str());
                assert(answers_merge_base(backend, from@, to@, merge_base));
                let ghost said = range_warnings(from@, to@, merge_base);
                let refs = resolve_triple_dots(from.as_str(), to.as_str(), merge_base, warnings);
                assert(resolves(backend, options.reference, refs@, said));
                refs
            },
            Some(CommitReference::RangeToWorkingTree { from }) => {
                let refs = DiffRefs::RangeToWorkingTree { from: from.clone() };
                assert(resolves(backend, options.reference, refs@, nothing));
                refs
            },
        }
    }
}

// ---------------------------------------------------------------------------------------------
// Which files changed
// ---------------------------------------------------------------------------------------------

/// The files that are asked for: all of them, or those that the filter names.
pub open spec fn requested(files: Seq<Seq<char>>, filter: Option<Seq<Seq<char>>>) -> Seq<Seq<char>> {
    match filter {
        Some(wanted) => files.filter(|file: Seq<char>| wanted.contains(file)),
        None => files,
    }
}

/// The names in a filter.
pub open spec fn wanted(filter: Option<Vec<String>>) -> Option<Seq<Seq<char>>> {
    match filter {
        Some(names) => Some(texts(names@)),
        None => None,
    }
}

/// The files of two lists, each once, in order.
pub fn union_in_order(first: Vec<String>, second: Vec<String>) -> (r: Vec<String>)
    ensures
        texts(r@) == first_occurrences(texts(first@) + texts(second@)),
{
    let ghost all = texts(first@) + texts(second@);
    let mut combined: Vec<String> = Vec::new();
    assert(all.take(0) =~= Seq::<Seq<char>>::empty());
    assert(texts(combined@) =~= Seq::<Seq<char>>::empty());
    for i in 0..first.len()
        invariant
            all == texts(first@) + texts(second@),
            texts(combined@) == first_occurrences(all.take(i as int)),
    {
        assert(all.take(i + 1).drop_last() =~= all.take(i as int));
        assert(all.take(i + 1).last() == first@[i as int]@);
        if !holds(&combined, &first[i]) {
            let ghost was = texts(combined@);
            combined.push(first[i].clone());
            assert(texts(combined@) =~= was.push(first@[i as int]@));
        }
    }
    let n = first.len();
    for i in 0..second.len()
        invariant
            n == first@.len(),
            all == texts(first@) + texts(second@),
            texts(combined@) == first_occurrences(all.take(n + i)),
    {
        assert(all.take(n + i + 1).drop_last() =~= all.take(n + i));
        assert(all.take(n + i + 1).last() == second@[i as int]@);
        if !holds(&combined, &second[i]) {
            let ghost was = texts(combined@);
            combined.push(second[i].clone());
            assert(texts(combined@) =~= was.push(second@[i as int]@));
        }
    }
    assert(all.take(all.len() as int) =~= all);
    combined
}

/// Keeps the files that are asked for.
pub fn keep_requested(files: Vec<String>, filter: &Option<Vec<String>>) -> (r: Vec<String>)
    ensures
        texts(r@) == requested(texts(files@), wanted(*filter)),
{
    match filter {
        Some(names) => {
            let ghost keep = |file: Seq<char>| texts(names@).contains(file);
            let ghost all = texts(files@);
            let mut kept: Vec<String> = Vec::new();
            reveal(Seq::filter);
            assert(all.take(0).filter(keep) =~= Seq::<Seq<char>>::empty());
            assert(texts(kept@) =~= Seq::<Seq<char>>::empty());
            for i in 0..files.len()
                invariant
                    all == texts(files@),
                    keep == (|file: Seq<char>| texts(names@).contains(file)),
                    texts(kept@) == all.take(i as int).filter(keep),
            {
                reveal(Seq::filter);
                assert(all.take(i + 1).drop_last() =~= all.take(i as int));
                assert(all.take(i + 1).last() == files@[i as int]@);
                if holds(names, &files[i]) {
                    let ghost was = texts(kept@);
                    kept.push(files[i].clone());
                    assert(texts(kept@) =~= was.push(files@[i as int]@));
                }
            }
            assert(all.take(all.len() as int) =~= all);
            kept
        },
        None => files,
    }
}

/// `files` is what the backend lists as changed by a commit.
pub open spec fn commit_lists<B: VcsBackend + ?Sized>(
    backend: &B,
    commit: Seq<char>,
    files: Seq<Seq<char>>,
) -> bool {
    exists|reply: Result<Vec<String>, String>| #[trigger]
        answers_changed_files(backend, commit, reply) && files == listing(reply)
}

/// `files` is what the backend lists as changed between two references.
pub open spec fn range_lists<B: VcsBackend + ?Sized>(
    backend: &B,
    from: Seq<char>,
    to: Seq<char>,
    files: Seq<Seq<char>>,
) -> bool {
    exists|reply: Result<Vec<String>, String>| #[trigger]
        answers_range_files(backend, from, to, reply) && files == listing(reply)
}

/// `files` is what the backend lists as changed in the working tree.
pub open spec fn tree_lists<B: VcsBackend + ?Sized>(backend: &B, files: Seq<Seq<char>>) -> bool {
    exists|reply: Result<Vec<String>, String>| #[trigger]
        answers_working_files(backend, reply) && files == listing(reply)
}

/// `files` is the union of what changed since `from` and of what changed in the working tree.
pub open spec fn range_and_tree_list<B: VcsBackend + ?Sized>(
    backend: &B,
    from: Seq<char>,
    files: Seq<Seq<char>>,
) -> bool {
    exists|head: Seq<char>, in_range: Seq<Seq<char>>, in_tree: Seq<Seq<char>>|
        {
            &&& answers_working_parent(backend, head)
            &&& #[trigger] range_lists(backend, from, head, in_range)
            &&& #[trigger] tree_lists(backend, in_tree)
            &&& files == first_occurrences(in_range + in_tree)
        }
}

/// `files` is what the backend lists as changed between the two sides.
pub open spec fn lists<B: VcsBackend + ?Sized>(
    backend: &B,
    refs: Refs,
    files: Seq<Seq<char>>,
) -> bool {
    match refs {
        Refs::Single(sha) => commit_lists(backend, sha, files),
        Refs::Range { from, to } => range_lists(backend, from, to, files),
        Refs::WorkingTree => tree_lists(backend, files),
        Refs::RangeToWorkingTree { from } => range_and_tree_list(backend, from, files),
    }
}

/// Asks for the files that changed between the two sides. A failure stands for none.
pub fn listed_files<B: VcsBackend + ?Sized>(refs: &DiffRefs, backend: &B) -> (r: Vec<String>)
    ensures
        lists(backend, refs@, texts(r@)),
{
    match refs {
        DiffRefs::Single(sha) => {
            let reply = backend.get_changed_files(sha.as_str());
            assert(answers_changed_files(backend, sha@, reply));
            files_or_none(reply)
        },
        DiffRefs::Range { from, to } => {
            let reply = backend.get_range_changed_files(from.as_str(), to.as_str());
            assert(answers_range_files(backend, from@, to@, reply));
            files_or_none(reply)
        },
        DiffRefs::WorkingTree => {
            let reply = backend.get_working_tree_changed_files();
            assert(answers_working_files(backend, reply));
            files_or_none(reply)
        },
        DiffRefs::RangeToWorkingTree { from } => {
            let head = backend.working_copy_parent_ref();
            assert(answers_working_parent(backend, head@));
            let in_range = backend.get_range_changed_files(from.as_str(), head);
            assert(answers_range_files(backend, from@, head@, in_range));
            let in_tree = backend.get_working_tree_changed_files();
            assert(answers_working_files(backend, in_tree));
            assert(range_lists(backend, from@, head@, listing(in_range)));
            assert(tree_lists(backend, listing(in_tree)));
            union_in_order(files_or_none(in_range), files_or_none(in_tree))
        },
    }
}

/// `files` is the list of files to show for the options, and `said` is what is to be said.
pub open spec fn changed_files<B: VcsBackend + ?Sized>(
    backend: &B,
    options: DiffOptions,
    files: Seq<Seq<char>>,
    said: Seq<Seq<char>>,
) -> bool {
    exists|refs: Refs, listed: Seq<Seq<char>>|
        {
            &&& #[trigger] resolves(backend, options.reference, refs, said)
            &&& #[trigger] lists(backend, refs, listed)
            &&& files == requested(listed, wanted(options.file))
        }
}

/// Get the list of files changed
pub fn get_changed_files<B: VcsBackend + ?Sized>(
    options: &DiffOptions,
    backend: &B,
    warnings: &mut Vec<String>,
) -> (r: Vec<String>)
    ensures
        exists|said: Seq<Seq<char>>|
            #[trigger] changed_files(backend, *options, texts(r@), said) && texts(final(warnings)@)
                == texts(old(warnings)@) + said,
{
    let ghost before = texts(warnings@);
    let refs = DiffRefs::from_options(options, backend, warnings);
    let ghost said = choose|said: Seq<Seq<char>>|
        #[trigger] resolves(backend, options.reference, refs@, said) && texts(warnings@) == before
            + said;
    let listed = listed_files(&refs, backend);
    let ghost listed_texts = texts(listed@);
    assert(lists(backend, refs@, listed_texts));
    let files = keep_requested(listed, &options.file);
    assert(changed_files(backend, *options, texts(files@), said));
    files
}

// ---------------------------------------------------------------------------------------------
// What the files hold
// ---------------------------------------------------------------------------------------------

/// `parent` is the parent of a commit.
pub open spec fn parent_of<B: VcsBackend + ?Sized>(
    backend: &B,
    commit: Seq<char>,
    parent: Seq<char>,
) -> bool {
    exists|reply: Result<String, String>| #[trigger]
        answers_parent(backend, commit, reply) && parent == text_or_empty(reply)
}

/// `content` is what the backend says that a file holds at a reference.
pub open spec fn stored_content<B: VcsBackend + ?Sized>(
    backend: &B,
    git_ref: Seq<char>,
    filename: Seq<char>,
    content: Seq<char>,
) -> bool {
    exists|reply: Result<String, String>| #[trigger]
        answers_content(backend, git_ref, filename, reply) && content == text_or_empty(reply)
}

/// `content` is what a file of the working tree holds.
pub open spec fn tree_content<H: DiffHost + ?Sized>(
    host: &H,
    filename: Seq<char>,
    content: Seq<char>,
) -> bool {
    exists|reply: Result<String, String>| #[trigger]
        answers_read(host, filename, reply) && content == text_or_empty(reply)
}

/// `git_ref` is the reference of the old side.
pub open spec fn old_ref<B: VcsBackend + ?Sized>(
    backend: &B,
    refs: Refs,
    git_ref: Seq<char>,
) -> bool {
    match refs {
        Refs::Single(sha) => parent_of(backend, sha, git_ref),
        Refs::Range { from, .. } => git_ref == from,
        Refs::RangeToWorkingTree { from } => git_ref == from,
        Refs::WorkingTree => answers_working_parent(backend, git_ref),
    }
}

/// `content` is what a file holds at a reference. The empty reference stands for the parent of a
/// root commit, where every file is empty.
pub open spec fn content_at<B: VcsBackend + ?Sized>(
    backend: &B,
    git_ref: Seq<char>,
    filename: Seq<char>,
    content: Seq<char>,
) -> bool {
    if git_ref.len() == 0 {
        content == Seq::<char>::empty()
    } else {
        stored_content(backend, git_ref, filename, content)
    }
}

/// `content` is what a file holds on the old side.
pub open spec fn old_side<B: VcsBackend + ?Sized>(
    backend: &B,
    refs: Refs,
    filename: Seq<char>,
    content: Seq<char>,
) -> bool {
    exists|git_ref: Seq<char>| #[trigger]
        old_ref(backend, refs, git_ref) && content_at(backend, git_ref, filename, content)
}

/// `content` is what a file holds on the new side.
pub open spec fn new_side<B: VcsBackend + ?Sized, H: DiffHost + ?Sized>(
    backend: &B,
    host: &H,
    refs: Refs,
    filename: Seq<char>,
    content: Seq<char>,
) -> bool {
    match refs {
        Refs::Single(sha) => stored_content(backend, sha, filename, content),
        Refs::Range { to, .. } => stored_content(backend, to, filename, content),
        _ => tree_content(host, filename, content),
    }
}

/// The content of a file at a reference. A failure stands for an empty file.
fn content_at_ref<B: VcsBackend + ?Sized>(git_ref: &str, filename: &str, backend: &B) -> (r: String)
    ensures
        content_at(backend, git_ref@, filename@, r@),
{
    if git_ref.is_empty() {
        return String::new();
    }
    let reply = backend.get_file_content_at_ref(git_ref, filename);
    assert(answers_content(backend, git_ref@, filename@, reply));
    content_or_empty(reply)
}

/// Get content of a file at the "old" side of the diff
pub fn get_old_content<B: VcsBackend + ?Sized>(
    filename: &str,
    refs: &DiffRefs,
    backend: &B,
) -> (r: String)
    ensures
        old_side(backend, refs@, filename@, r@),
{
    let git_ref = match refs {
        DiffRefs::Single(sha) => {
            let reply = backend.get_parent_ref_or_empty(sha.as_str());
            assert(answers_parent(backend, sha@, reply));
            content_or_empty(reply)
        },
        DiffRefs::Range { from, .. } => from.clone(),
        DiffRefs::RangeToWorkingTree { from } => from.clone(),
        DiffRefs::WorkingTree => {
            let head = backend.working_copy_parent_ref();
            assert(answers_working_parent(backend, head@));
            head.to_string()
        },
    };
    assert(old_ref(backend, refs@, git_ref@));
    content_at_ref(git_ref.as_str(), filename, backend)
}

/// Get content of a file at the "new" side of the diff
pub fn get_new_content<B: VcsBackend + ?Sized, H: DiffHost + ?Sized>(
    filename: &str,
    refs: &DiffRefs,
    backend: &B,
    host: &H,
) -> (r: String)
    ensures
        new_side(backend, host, refs@, filename@, r@),
{
    match refs {
        DiffRefs::Single(sha) => {
            let reply = backend.get_file_content_at_ref(sha.as_str(), filename);
            assert(answers_content(backend, sha@, filename@, reply));
            content_or_empty(reply)
        },
        DiffRefs::Range { to, .. } => {
            let reply = backend.get_file_content_at_ref(to.as_str(), filename);
            assert(answers_content(backend, to@, filename@, reply));
            content_or_empty(reply)
        },
        DiffRefs::WorkingTree | DiffRefs::RangeToWorkingTree { .. } => {
            let reply = host.read_to_string(filename);
            assert(answers_read(host, filename@, reply));
            content_or_empty(reply)
        },
    }
}

/// How a file changed, by which of its sides are empty.
pub open spec fn status_of(old: Seq<char>, new: Seq<char>) -> FileStatus {
    if old.len() == 0 && new.len() > 0 {
        FileStatus::Added
    } else if old.len() > 0 && new.len() == 0 {
        FileStatus::Deleted
    } else {
        FileStatus::Modified
    }
}

/// How a file changed, by which of its sides are empty.
pub fn change_status(old: &str, new: &str) -> (r: FileStatus)
    ensures
        r == status_of(old@, new@),
{
    if old.is_empty() && !new.is_empty() {
        FileStatus::Added
    } else if !old.is_empty() && new.is_empty() {
        FileStatus::Deleted
    } else {
        FileStatus::Modified
    }
}

/// `verdict` is whether one of the sides is shown as binary. The new side is asked about only if
/// the old one is not.
pub open spec fn binary_side<H: DiffHost + ?Sized>(
    host: &H,
    old: Seq<char>,
    new: Seq<char>,
    verdict: bool,
) -> bool {
    ||| verdict && answers_binary(host, old, true)
    ||| answers_binary(host, old, false) && answers_binary(host, new, verdict)
}

/// Whether one of the sides is shown as binary.
pub fn either_binary<H: DiffHost + ?Sized>(old: &str, new: &str, host: &H) -> (r: bool)
    ensures
        binary_side(host, old@, new@, r),
{
    let old_is_binary = host.is_binary_content(old);
    assert(answers_binary(host, old@, old_is_binary));
    if old_is_binary {
        return true;
    }
    let new_is_binary = host.is_binary_content(new);
    assert(answers_binary(host, new@, new_is_binary));
    new_is_binary
}

/// `diff` is the diff of the file `filename` between the two sides.
pub open spec fn file_loaded<B: VcsBackend + ?Sized, H: DiffHost + ?Sized>(
    backend: &B,
    host: &H,
    refs: Refs,
    filename: Seq<char>,
    diff: FileDiff,
) -> bool {
    &&& diff.filename@ == filename
    &&& old_side(backend, refs, filename, diff.old_content@)
    &&& new_side(backend, host, refs, filename, diff.new_content@)
    &&& diff.status == status_of(diff.old_content@, diff.new_content@)
    &&& binary_side(host, diff.old_content@, diff.new_content@, diff.is_binary)
}

/// `diffs` are the diffs of the files to show for the options, in order. The references are resolved
/// once for the contents and once for the list, and each time something may be said.
pub open spec fn loads<B: VcsBackend + ?Sized, H: DiffHost + ?Sized>(
    backend: &B,
    host: &H,
    options: DiffOptions,
    diffs: Seq<FileDiff>,
    said_first: Seq<Seq<char>>,
    said_then: Seq<Seq<char>>,
) -> bool {
    exists|refs: Refs, files: Seq<Seq<char>>|
        {
            &&& #[trigger] resolves(backend, options.reference, refs, said_first)
            &&& #[trigger] changed_files(backend, options, files, said_then)
            &&& diffs.len() == files.len()
            &&& forall|i: int|
                0 <= i < files.len() ==> file_loaded(
                    backend,
                    host,
                    refs,
                    files[i],
                    #[trigger] diffs[i],
                )
        }
}

/// Loads the diffs of all changed files that are asked for, in the order in which they are
/// listed.
pub fn load_file_diffs<B: VcsBackend + ?Sized, H: DiffHost + ?Sized>(
    options: &DiffOptions,
    backend: &B,
    host: &H,
    warnings: &mut Vec<String>,
) -> (r: Vec<FileDiff>)
    ensures
        exists|said_first: Seq<Seq<char>>, said_then: Seq<Seq<char>>|
            #[trigger] loads(backend, host, *options, r@, said_first, said_then) && texts(
                final(warnings)@,
            ) == texts(old(warnings)@) + said_first + said_then,
{
    let ghost before = texts(warnings@);
    let refs = DiffRefs::from_options(options, backend, warnings);
    let ghost said_first = choose|said: Seq<Seq<char>>|
        #[trigger] resolves(backend, options.reference, refs@, said) && texts(warnings@) == before
            + said;
    let ghost between = texts(warnings@);
    let files = get_changed_files(options, backend, warnings);
    let ghost said_then = choose|said: Seq<Seq<char>>|
        #[trigger] changed_files(backend, *options, texts(files@), said) && texts(warnings@)
            == between + said;
    let mut diffs: Vec<FileDiff> = Vec::new();
    for k in 0..files.len()
        invariant
            diffs@.len() == k,
            forall|i: int|
                0 <= i < k ==> file_loaded(
                    backend,
                    host,
                    refs@,
                    texts(files@)[i],
                    #[trigger] diffs@[i],
                ),
    {
        let filename = files[k].clone();
        let old_content = get_old_content(filename.as_str(), &refs, backend);
        let new_content = get_new_content(filename.as_str(), &refs, backend, host);
        let status = change_status(old_content.as_str(), new_content.as_str());
        let is_binary = either_binary(old_content.as_str(), new_content.as_str(), host);
        diffs.push(FileDiff { filename, old_content, new_content, status, is_binary });
    }
    assert(resolves(backend, options.reference, refs@, said_first));
    assert(changed_files(backend, *options, texts(files@), said_then));
    assert(loads(backend, host, *options, diffs@, said_first, said_then));
    diffs
}

/// `diff` is the diff of the file `filename` between a commit and its parent.
pub open spec fn commit_file_loaded<B: VcsBackend + ?Sized, H: DiffHost + ?Sized>(
    backend: &B,
    host: &H,
    commit: Seq<char>,
    parent: Seq<char>,
    filename: Seq<char>,
    diff: FileDiff,
) -> bool {
    &&& diff.filename@ == filename
    &&& content_at(backend, parent, filename, diff.old_content@)
    &&& stored_content(backend, commit, filename, diff.new_content@)
    &&& diff.status == status_of(diff.old_content@, diff.new_content@)
    &&& binary_side(host, diff.old_content@, diff.new_content@, diff.is_binary)
}

/// `diffs` are the diffs of the files that a commit changed and that are asked for, in order.
pub open spec fn commit_loads<B: VcsBackend + ?Sized, H: DiffHost + ?Sized>(
    backend: &B,
    host: &H,
    commit: Seq<char>,
    filter: Option<Seq<Seq<char>>>,
    diffs: Seq<FileDiff>,
) -> bool {
    exists|listed: Seq<Seq<char>>, parent: Seq<char>|
        {
            let files = requested(listed, filter);
            &&& #[trigger] commit_lists(backend, commit, listed)
            &&& #[trigger] parent_of(backend, commit, parent)
            &&& diffs.len() == files.len()
            &&& forall|i: int|
                0 <= i < files.len() ==> commit_file_loaded(
                    backend,
                    host,
                    commit,
                    parent,
                    files[i],
                    #[trigger] diffs[i],
                )
        }
}

/// Load file diffs for a single commit (comparing commit to its parent).
pub fn load_single_commit_diffs<B: VcsBackend + ?Sized, H: DiffHost + ?Sized>(
    commit_id: &str,
    file_filter: &Option<Vec<String>>,
    backend: &B,
    host: &H,
) -> (r: Vec<FileDiff>)
    ensures
        commit_loads(backend, host, commit_id@, wanted(*file_filter), r@),
{
    let listed = backend.get_changed_files(commit_id);
    assert(answers_changed_files(backend, commit_id@, listed));
    assert(commit_lists(backend, commit_id@, listing(listed)));
    let files = keep_requested(files_or_none(listed), file_filter);
    let parent = backend.get_parent_ref_or_empty(commit_id);
    assert(answers_parent(backend, commit_id@, parent));
    let parent_ref = content_or_empty(parent);
    assert(parent_of(backend, commit_id@, parent_ref@));
    let mut diffs: Vec<FileDiff> = Vec::new();
    for k in 0..files.len()
        invariant
            diffs@.len() == k,
            forall|i: int|
                0 <= i < k ==> commit_file_loaded(
                    backend,
                    host,
                    commit_id@,
                    parent_ref@,
                    texts(files@)[i],
                    #[trigger] diffs@[i],
                ),
    {
        let filename = files[k].clone();
        let old_content = content_at_ref(parent_ref.as_str(), filename.as_str(), backend);
        let reply = backend.get_file_content_at_ref(commit_id, filename.as_str());
        assert(answers_content(backend, commit_id@, filename@, reply));
        let new_content = content_or_empty(reply);
        let status = change_status(old_content.as_str(), new_content.as_str());
        let is_binary = either_binary(old_content.as_str(), new_content.as_str(), host);
        diffs.push(FileDiff { filename, old_content, new_content, status, is_binary });
    }
    diffs
}

// ---------------------------------------------------------------------------------------------
// Laws
// ---------------------------------------------------------------------------------------------

/// A filter keeps exactly the files that it names.
pub proof fn law_filter_keeps_named_files(files: Seq<Seq<char>>, names: Seq<Seq<char>>)
    ensures
        forall|file: Seq<char>|
            #![trigger requested(files, Some(names)).contains(file)]
            #![trigger files.contains(file)]
            requested(files, Some(names)).contains(file) <==> files.contains(file)
                && names.contains(file),
{
    let keep = |file: Seq<char>| names.contains(file);
    let kept = requested(files, Some(names));
    assert(kept == files.filter(keep));
    assert forall|file: Seq<char>|
        #![trigger kept.contains(file)]
        #![trigger files.contains(file)]
        kept.contains(file) <==> files.contains(file) && names.contains(file) by {
        if kept.contains(file) {
            files.lemma_filter_contains_rev(keep, file);
            let i = choose|i: int| 0 <= i < kept.len() && kept[i] == file;
            files.lemma_filter_pred(keep, i);
        }
        if files.contains(file) && names.contains(file) {
            let i = choose|i: int| 0 <= i < files.len() && files[i] == file;
            files.lemma_filter_contains(keep, i);
        }
    }
}

/// A filter keeps the order of the files: what it keeps of a list is what it keeps of the first
/// part, followed by what it keeps of the rest.
pub proof fn law_filter_keeps_order(
    first: Seq<Seq<char>>,
    rest: Seq<Seq<char>>,
    filter: Option<Seq<Seq<char>>>,
)
    ensures
        requested(first + rest, filter) == requested(first, filter) + requested(rest, filter),
{
    if let Some(names) = filter {
        Seq::filter_distributes_over_add(first, rest, |file: Seq<char>| names.contains(file));
    }
}

/// From a reference to the working tree, the files are those that changed since the reference and
/// those that changed in the working tree, each of them once.
pub proof fn law_range_to_working_tree_is_union<B: VcsBackend + ?Sized>(
    backend: &B,
    from: Seq<char>,
    files: Seq<Seq<char>>,
)
    requires
        lists(backend, Refs::RangeToWorkingTree { from }, files),
    ensures
        files.no_duplicates(),
        exists|head: Seq<char>, in_range: Seq<Seq<char>>, in_tree: Seq<Seq<char>>|
            {
                &&& answers_working_parent(backend, head)
                &&& #[trigger] range_lists(backend, from, head, in_range)
                &&& #[trigger] tree_lists(backend, in_tree)
                &&& forall|file: Seq<char>| #[trigger]
                    files.contains(file) <==> in_range.contains(file) || in_tree.contains(file)
            },
{
    let (head, in_range, in_tree) = choose|
        head: Seq<char>,
        in_range: Seq<Seq<char>>,
        in_tree: Seq<Seq<char>>,
    |
        {
            &&& answers_working_parent(backend, head)
            &&& #[trigger] range_lists(backend, from, head, in_range)
            &&& #[trigger] tree_lists(backend, in_tree)
            &&& files == first_occurrences(in_range + in_tree)
        };
    let all = in_range + in_tree;
    law_first_occurrences(all);
    assert forall|file: Seq<char>| #[trigger] files.contains(file) <==> in_range.contains(file)
        || in_tree.contains(file) by {
        if files.contains(file) {
            assert(all.contains(file));
            let i = choose|i: int| 0 <= i < all.len() && all[i] == file;
            if i < in_range.len() {
                assert(in_range[i] == file);
            } else {
                assert(in_tree[i - in_range.len()] == file);
            }
        }
        if in_range.contains(file) {
            let i = choose|i: int| 0 <= i < in_range.len() && in_range[i] == file;
            assert(all[i] == file);
            assert(all.contains(file));
        }
        if in_tree.contains(file) {
            let i = choose|i: int| 0 <= i < in_tree.len() && in_tree[i] == file;
            assert(all[i + in_range.len()] == file);
            assert(all.contains(file));
        }
    }
    assert(range_lists(backend, from, head, in_range) && tree_lists(backend, in_tree));
}

/// The files of a root commit, which has no parent, are empty on the old side. They are added, or
/// modified if they are empty on the new side as well.
pub proof fn law_root_commit_has_no_old_side<B: VcsBackend + ?Sized, H: DiffHost + ?Sized>(
    backend: &B,
    host: &H,
    commit: Seq<char>,
    filename: Seq<char>,
    diff: FileDiff,
)
    requires
        commit_file_loaded(backend, host, commit, Seq::empty(), filename, diff),
    ensures
        diff.old_content@ == Seq::<char>::empty(),
        diff.status == if diff.new_content@.len() > 0 {
            FileStatus::Added
        } else {
            FileStatus::Modified
        },
{
}

/// What is loaded for one commit is what a diff of that commit alone is.
pub proof fn law_commit_is_single_reference<B: VcsBackend + ?Sized, H: DiffHost + ?Sized>(
    backend: &B,
    host: &H,
    commit: Seq<char>,
    parent: Seq<char>,
    filename: Seq<char>,
    diff: FileDiff,
)
    requires
        parent_of(backend, commit, parent),
        commit_file_loaded(backend, host, commit, parent, filename, diff),
    ensures
        file_loaded(backend, host, Refs::Single(commit), filename, diff),
{
    assert(old_ref(backend, Refs::Single(commit), parent));
}

/// Exchanging the two sides of a file exchanges added and deleted.
pub proof fn law_exchanged_sides(old: Seq<char>, new: Seq<char>)
    ensures
        status_of(old, new) == FileStatus::Added <==> status_of(new, old) == FileStatus::Deleted,
        status_of(old, new) == FileStatus::Modified <==> status_of(new, old)
            == FileStatus::Modified,
{
}

/// The view of references keeps their kind and both of their ends.
pub proof fn law_refs_view_keeps_both_ends(refs: DiffRefs)
    ensures
        refs is WorkingTree ==> refs@ is WorkingTree,
        refs matches DiffRefs::Single(sha) ==> refs@ == Refs::Single(sha@),
        refs matches DiffRefs::Range { from, to } ==> refs@ is Range && refs@->Range_from == from@
            && refs@->to == to@,
        refs matches DiffRefs::RangeToWorkingTree { from } ==> refs@ is RangeToWorkingTree
            && refs@->RangeToWorkingTree_from == from@,
{
}

/// A filter goes through the files one by one: a file that it names stays behind those before it,
/// and any other goes. Without a filter all files stay.
pub proof fn law_filter_goes_file_by_file(
    files: Seq<Seq<char>>,
    file: Seq<char>,
    names: Seq<Seq<char>>,
)
    ensures
        requested(files, None) == files,
        requested(Seq::empty(), Some(names)).len() == 0,
        names.contains(file) ==> requested(files.push(file), Some(names)) == requested(
            files,
            Some(names),
        ).push(file),
        !names.contains(file) ==> requested(files.push(file), Some(names)) == requested(
            files,
            Some(names),
        ),
{
    reveal(Seq::filter);
    assert(files.push(file).drop_last() =~= files);
}

/// A filter is the list of its names, and no filter is none.
pub proof fn law_filter_is_its_names(filter: Option<Vec<String>>)
    ensures
        filter is None ==> wanted(filter) is None,
        filter matches Some(names) ==> wanted(filter) is Some && wanted(filter)->0.len()
            == names@.len() && forall|i: int|
            0 <= i < names@.len() ==> wanted(filter)->0[i] == (#[trigger] names@[i])@,
{
}

/// Where a three-dot range begins, and what is said of it. With a merge base it begins there and
/// nothing is said; without one it begins where the user said, and one warning tells why.
pub proof fn law_missing_merge_base_is_said(
    from: Seq<char>,
    to: Seq<char>,
    base: String,
    reason: String,
)
    ensures
        range_start(from, Ok(base)) == base@,
        range_warnings(from, to, Ok(base)).len() == 0,
        range_start(from, Err(reason)) == from,
        range_warnings(from, to, Err(reason)).len() == 1,
        has_text(range_warnings(from, to, Err(reason))[0], reason@),
{
    let warning = range_warnings(from, to, Err(reason))[0];
    assert(warning =~= ("Warning: failed to find merge-base for "@ + from + "..."@ + to + ": "@)
        + reason@ + (". Using '"@ + from + "' as base."@));
    law_contained_text_has_surroundings(warning, reason@);
}

} // verus!
