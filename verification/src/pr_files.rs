//! The changed files of a pull request, and which sides each of them has.

use vstd::prelude::*;

use crate::json::optional_text;
use crate::text::{has_text, law_contained_text_has_surroundings, same_text};
use crate::types::FileStatus;

verus! {

/// A changed file as GitHub lists it.
pub struct GithubFile {
    pub filename: String,
    pub status: String,
    pub previous_filename: Option<String>,
}

/// The view of a listed file.
pub struct ListedFile {
    pub filename: Seq<char>,
    pub status: Seq<char>,
    pub previous_filename: Option<Seq<char>>,
}

impl View for GithubFile {
    type V = ListedFile;

    open spec fn view(&self) -> ListedFile {
        ListedFile {
            filename: self.filename@,
            status: self.status@,
            previous_filename: optional_text(self.previous_filename),
        }
    }
}

/// A changed file of a pull request. A side that the file does not have has no path.
#[derive(Debug)]
pub struct PrChangedFile {
    pub filename: String,
    pub old_path: Option<String>,
    pub new_path: Option<String>,
    pub status: FileStatus,
}

/// The view of a changed file.
pub struct ChangedFile {
    pub filename: Seq<char>,
    pub old_path: Option<Seq<char>>,
    pub new_path: Option<Seq<char>>,
    pub status: FileStatus,
}

impl View for PrChangedFile {
    type V = ChangedFile;

    open spec fn view(&self) -> ChangedFile {
        ChangedFile {
            filename: self.filename@,
            old_path: optional_text(self.old_path),
            new_path: optional_text(self.new_path),
            status: self.status,
        }
    }
}

/// The views of changed files.
pub open spec fn changed(files: Seq<PrChangedFile>) -> Seq<ChangedFile> {
    files.map_values(|file: PrChangedFile| file@)
}

/// The views of changed files, or of a message.
pub open spec fn changed_or_message(r: Result<Vec<PrChangedFile>, String>) -> Result<
    Seq<ChangedFile>,
    Seq<char>,
> {
    match r {
        Ok(files) => Ok(changed(files@)),
        Err(message) => Err(message@),
    }
}

/// What a status of GitHub means.
pub open spec fn listed_status(status: Seq<char>) -> Option<FileStatus> {
    if status == "added"@ || status == "copied"@ {
        Some(FileStatus::Added)
    } else if status == "removed"@ {
        Some(FileStatus::Deleted)
    } else if status == "modified"@ || status == "renamed"@ || status == "changed"@ {
        Some(FileStatus::Modified)
    } else {
        None
    }
}

/// The changed file that a listed file is, or what is wrong with it. A renamed file has its old
/// side under its previous name.
pub open spec fn changed_file(file: ListedFile) -> Result<ChangedFile, Seq<char>> {
    match listed_status(file.status) {
        None => Err("Unsupported PR file status: "@ + file.status),
        Some(status) => {
            let new_path = if status == FileStatus::Deleted {
                None
            } else {
                Some(file.filename)
            };
            if status == FileStatus::Added {
                Ok(ChangedFile { filename: file.filename, old_path: None, new_path, status })
            } else if file.status == "renamed"@ {
                match file.previous_filename {
                    Some(previous) => Ok(
                        ChangedFile {
                            filename: file.filename,
                            old_path: Some(previous),
                            new_path,
                            status,
                        },
                    ),
                    None => Err("Renamed PR file has no previous path: "@ + file.filename),
                }
            } else {
                Ok(
                    ChangedFile {
                        filename: file.filename,
                        old_path: Some(file.filename),
                        new_path,
                        status,
                    },
                )
            }
        },
    }
}

/// All changed files of a list, or what is wrong with the first that is wrong.
pub open spec fn changed_file_list(list: Seq<ListedFile>) -> Result<Seq<ChangedFile>, Seq<char>>
    decreases list.len(),
{
    if list.len() == 0 {
        Ok(Seq::empty())
    } else {
        match changed_file_list(list.drop_last()) {
            Err(message) => Err(message),
            Ok(files) => match changed_file(list.last()) {
                Err(message) => Err(message),
                Ok(file) => Ok(files.push(file)),
            },
        }
    }
}

/// The views of the files on a page.
pub open spec fn page_files(page: Seq<GithubFile>) -> Seq<ListedFile> {
    page.map_values(|file: GithubFile| file@)
}

/// The files on all pages, in order.
pub open spec fn listed_files(pages: Seq<Vec<GithubFile>>) -> Seq<ListedFile>
    decreases pages.len(),
{
    if pages.len() == 0 {
        Seq::empty()
    } else {
        listed_files(pages.drop_last()) + page_files(pages.last()@)
    }
}

/// The changed files that the parsed pages hold, or what is wrong.
pub open spec fn parsed_files(pages: Result<Vec<Vec<GithubFile>>, String>) -> Result<
    Seq<ChangedFile>,
    Seq<char>,
> {
    match pages {
        Err(message) => Err("Could not parse PR file list: "@ + message@),
        Ok(pages) => changed_file_list(listed_files(pages@)),
    }
}

/// Reads a listed file.
fn read_listed_file(file: &GithubFile) -> (r: Result<PrChangedFile, String>)
    ensures
        match r {
            Ok(done) => changed_file(file@) == Ok::<ChangedFile, Seq<char>>(done@),
            Err(message) => changed_file(file@) == Err::<ChangedFile, Seq<char>>(message@),
        },
{
    let name = file.status.as_str();
    let status = if same_text(name, "added") || same_text(name, "copied") {
        FileStatus::Added
    } else if same_text(name, "removed") {
        FileStatus::Deleted
    } else if same_text(name, "modified") || same_text(name, "renamed") || same_text(
        name,
        "changed",
    ) {
        FileStatus::Modified
    } else {
        let mut message = "Unsupported PR file status: ".to_string();
        message.append(name);
        return Err(message);
    };
    let old_path = if status == FileStatus::Added {
        None
    } else if same_text(name, "renamed") {
        match &file.previous_filename {
            Some(previous) => Some(previous.clone()),
            None => {
                let mut message = "Renamed PR file has no previous path: ".to_string();
                message.append(file.filename.as_str());
                return Err(message);
            },
        }
    } else {
        Some(file.filename.clone())
    };
    let new_path = if status == FileStatus::Deleted {
        None
    } else {
        Some(file.filename.clone())
    };
    Ok(PrChangedFile { filename: file.filename.clone(), old_path, new_path, status })
}

proof fn lemma_list_stops_at_error(list: Seq<ListedFile>, i: int)
    requires
        0 <= i <= list.len(),
        changed_file_list(list.take(i)) is Err,
    ensures
        changed_file_list(list) == changed_file_list(list.take(i)),
    decreases list.len(),
{
    if i < list.len() {
        assert(list.drop_last().take(i) =~= list.take(i));
        lemma_list_stops_at_error(list.drop_last(), i);
    } else {
        assert(list.take(i) =~= list);
    }
}

proof fn lemma_pages_taken(pages: Seq<Vec<GithubFile>>, i: int)
    requires
        0 <= i <= pages.len(),
    ensures
        listed_files(pages).len() >= listed_files(pages.take(i)).len(),
        listed_files(pages).take(listed_files(pages.take(i)).len() as int) == listed_files(
            pages.take(i),
        ),
    decreases pages.len(),
{
    let start = listed_files(pages.take(i));
    if i < pages.len() {
        assert(pages.drop_last().take(i) =~= pages.take(i));
        lemma_pages_taken(pages.drop_last(), i);
        assert(listed_files(pages).take(start.len() as int) =~= listed_files(
            pages.drop_last(),
        ).take(start.len() as int));
    } else {
        assert(pages.take(i) =~= pages);
        assert(listed_files(pages).take(start.len() as int) =~= listed_files(pages));
    }
}

/// Reads the changed files of a pull request from the parsed pages of GitHub's list, or from the
/// message of the parser.
pub fn parse_pr_changed_files(pages: Result<Vec<Vec<GithubFile>>, String>) -> (r: Result<
    Vec<PrChangedFile>,
    String,
>)
    ensures
        changed_or_message(r) == parsed_files(pages),
{
    let list = match pages {
        Ok(list) => list,
        Err(e) => {
            let mut message = "Could not parse PR file list: ".to_string();
            message.append(e.as_str());
            return Err(message);
        },
    };
    let ghost all = listed_files(list@);
    let mut files: Vec<PrChangedFile> = Vec::new();
    let ghost mut count: int = 0;
    assert(list@.take(0) =~= Seq::<Vec<GithubFile>>::empty());
    assert(all.take(0) =~= Seq::<ListedFile>::empty());
    assert(changed(files@) =~= Seq::<ChangedFile>::empty());
    for i in 0..list.len()
        invariant
            parsed_files(pages) == changed_file_list(all),
            all == listed_files(list@),
            count == listed_files(list@.take(i as int)).len(),
            0 <= count <= all.len(),
            changed_file_list(all.take(count)) == Ok::<Seq<ChangedFile>, Seq<char>>(
                changed(files@),
            ),
    {
        let page = &list[i];
        let ghost start = count;
        proof {
            assert(list@.take(i + 1).drop_last() =~= list@.take(i as int));
            assert(list@.take(i + 1).last() == list@[i as int]);
            lemma_pages_taken(list@, i + 1);
            lemma_pages_taken(list@, i as int);
        }
        for k in 0..page.len()
            invariant
                parsed_files(pages) == changed_file_list(all),
                all == listed_files(list@),
                0 <= i < list@.len(),
                page == list@[i as int],
                start == listed_files(list@.take(i as int)).len(),
                listed_files(list@.take(i + 1)) == listed_files(list@.take(i as int))
                    + page_files(page@),
                all.take(listed_files(list@.take(i + 1)).len() as int) == listed_files(
                    list@.take(i + 1),
                ),
                start + page@.len() <= all.len(),
                count == start + k,
                changed_file_list(all.take(count)) == Ok::<Seq<ChangedFile>, Seq<char>>(
                    changed(files@),
                ),
        {
            proof {
                assert(all[count] == listed_files(list@.take(i + 1))[count]) by {
                    assert(all.take(listed_files(list@.take(i + 1)).len() as int)[count]
                        == all[count]);
                }
                assert(all[count] == page@[k as int]@);
                assert(all.take(count + 1).drop_last() =~= all.take(count));
                assert(all.take(count + 1).last() == all[count]);
            }
            match read_listed_file(&page[k]) {
                Ok(file) => {
                    let ghost was = changed(files@);
                    let ghost added = file@;
                    files.push(file);
                    assert(changed(files@) =~= was.push(added));
                },
                Err(message) => {
                    proof {
                        lemma_list_stops_at_error(all, count + 1);
                    }
                    return Err(message);
                },
            }
            proof {
                count = count + 1;
            }
        }
    }
    proof {
        assert(list@.take(list@.len() as int) =~= list@);
        assert(all.take(all.len() as int) =~= all);
    }
    Ok(files)
}

// ---------------------------------------------------------------------------------------------
// Laws
// ---------------------------------------------------------------------------------------------

/// A changed file lacks its old side exactly if it was added, and its new side exactly if it was
/// deleted; so it has at least one side.
pub proof fn law_missing_side_tells_status(file: ListedFile)
    ensures
        changed_file(file) matches Ok(changed) ==> {
            &&& changed.filename == file.filename
            &&& changed.old_path is None <==> changed.status == FileStatus::Added
            &&& changed.new_path is None <==> changed.status == FileStatus::Deleted
            &&& changed.old_path is Some || changed.new_path is Some
        },
{
}

/// A renamed file has its old side under its original path and its new side under its new one.
pub proof fn law_renamed_file_keeps_original_path(file: ListedFile, original: Seq<char>)
    requires
        file.status == "renamed"@,
        file.previous_filename == Some(original),
    ensures
        changed_file(file) == Ok::<ChangedFile, Seq<char>>(
            ChangedFile {
                filename: file.filename,
                old_path: Some(original),
                new_path: Some(file.filename),
                status: FileStatus::Modified,
            },
        ),
{
    reveal_strlit("renamed");
    reveal_strlit("added");
    reveal_strlit("copied");
    reveal_strlit("removed");
    assert("renamed"@.len() == 7 && "removed"@.len() == 7);
    assert("renamed"@[2] == 'n' && "removed"@[2] == 'm');
}

/// A list of files is read file by file, in order: either every file is read, or the message is
/// that of the first file that cannot be.
pub proof fn law_list_is_read_in_order(list: Seq<ListedFile>)
    ensures
        match changed_file_list(list) {
            Ok(files) => {
                &&& files.len() == list.len()
                &&& forall|i: int|
                    0 <= i < list.len() ==> changed_file(list[i]) == Ok::<ChangedFile, Seq<char>>(
                        #[trigger] files[i],
                    )
            },
            Err(message) => exists|i: int|
                {
                    &&& 0 <= i < list.len()
                    &&& changed_file(#[trigger] list[i]) == Err::<ChangedFile, Seq<char>>(message)
                    &&& forall|j: int| 0 <= j < i ==> changed_file(#[trigger] list[j]) is Ok
                },
        },
    decreases list.len(),
{
    if list.len() > 0 {
        let start = list.drop_last();
        law_list_is_read_in_order(start);
        match changed_file_list(start) {
            Err(message) => {
                let i = choose|i: int|
                    {
                        &&& 0 <= i < start.len()
                        &&& changed_file(#[trigger] start[i]) == Err::<ChangedFile, Seq<char>>(
                            message,
                        )
                        &&& forall|j: int| 0 <= j < i ==> changed_file(#[trigger] start[j]) is Ok
                    };
                assert(list[i] == start[i]);
                assert forall|j: int| 0 <= j < i implies changed_file(#[trigger] list[j]) is Ok by {
                    assert(list[j] == start[j]);
                }
            },
            Ok(files) => {
                assert forall|j: int| 0 <= j < start.len() implies changed_file(
                    #[trigger] list[j],
                ) == Ok::<ChangedFile, Seq<char>>(files[j]) by {
                    assert(list[j] == start[j]);
                }
                assert(list[list.len() - 1] == list.last());
            },
        }
    }
}

/// What each status of GitHub means for the two sides of a file: an added or copied file has only a
/// new side, a removed one only an old side, and a modified or changed one both, all under its
/// name. A renamed file needs its previous name. Any other status is refused, and the message names
/// it.
pub proof fn law_status_tells_sides(file: ListedFile)
    ensures
        file.status == "added"@ || file.status == "copied"@ ==> changed_file(file) == Ok::<
            ChangedFile,
            Seq<char>,
        >(
            ChangedFile {
                filename: file.filename,
                old_path: None,
                new_path: Some(file.filename),
                status: FileStatus::Added,
            },
        ),
        file.status == "removed"@ ==> changed_file(file) == Ok::<ChangedFile, Seq<char>>(
            ChangedFile {
                filename: file.filename,
                old_path: Some(file.filename),
                new_path: None,
                status: FileStatus::Deleted,
            },
        ),
        file.status == "modified"@ || file.status == "changed"@ ==> changed_file(file) == Ok::<
            ChangedFile,
            Seq<char>,
        >(
            ChangedFile {
                filename: file.filename,
                old_path: Some(file.filename),
                new_path: Some(file.filename),
                status: FileStatus::Modified,
            },
        ),
        file.status == "renamed"@ && file.previous_filename is None ==> (changed_file(file)
            matches Err(message) && has_text(message, file.filename)),
        file.status != "added"@ && file.status != "copied"@ && file.status != "removed"@
            && file.status != "modified"@ && file.status != "changed"@ && file.status != "renamed"@
            ==> (changed_file(file) matches Err(message) && has_text(message, file.status)),
{
    reveal_strlit("added");
    reveal_strlit("copied");
    reveal_strlit("removed");
    reveal_strlit("modified");
    reveal_strlit("changed");
    reveal_strlit("renamed");
    assert("removed"@[2] == 'm' && "renamed"@[2] == 'n' && "changed"@[2] == 'a');
    let unsupported = "Unsupported PR file status: "@ + file.status;
    assert(unsupported =~= "Unsupported PR file status: "@ + file.status + Seq::<char>::empty());
    law_contained_text_has_surroundings(unsupported, file.status);
    let nameless = "Renamed PR file has no previous path: "@ + file.filename;
    assert(nameless =~= "Renamed PR file has no previous path: "@ + file.filename + Seq::<
        char,
    >::empty());
    law_contained_text_has_surroundings(nameless, file.filename);
}

/// The views of files keep every part of them.
pub proof fn law_file_views_keep_all_parts(listed: GithubFile, file: PrChangedFile)
    ensures
        listed@.filename == listed.filename@,
        listed@.status == listed.status@,
        listed.previous_filename matches Some(name) ==> listed@.previous_filename == Some(name@),
        listed.previous_filename is None ==> listed@.previous_filename is None,
        file@.filename == file.filename@,
        file@.status == file.status,
        file.old_path matches Some(path) ==> file@.old_path == Some(path@),
        file.old_path is None ==> file@.old_path is None,
        file.new_path matches Some(path) ==> file@.new_path == Some(path@),
        file.new_path is None ==> file@.new_path is None,
{
}

/// The files of pages are those of the first page, then those of the next, and so on, file by file.
pub proof fn law_pages_are_read_one_after_the_other(
    pages: Seq<Vec<GithubFile>>,
    page: Vec<GithubFile>,
    files: Seq<PrChangedFile>,
)
    ensures
        listed_files(Seq::empty()).len() == 0,
        listed_files(pages.push(page)).len() == listed_files(pages).len() + page@.len(),
        forall|i: int|
            0 <= i < listed_files(pages).len() ==> #[trigger] listed_files(pages.push(page))[i]
                == listed_files(pages)[i],
        forall|i: int|
            0 <= i < page@.len() ==> listed_files(pages.push(page))[listed_files(pages).len() + i]
                == (#[trigger] page@[i])@,
        changed(files).len() == files.len(),
        forall|i: int| 0 <= i < files.len() ==> #[trigger] changed(files)[i] == files[i]@,
{
    assert(pages.push(page).drop_last() =~= pages);
}

/// What is read from the pages is what their files come to, and a message of the parser is passed
/// on.
pub proof fn law_pages_or_message(pages: Vec<Vec<GithubFile>>, message: String, files: Vec<
    PrChangedFile,
>)
    ensures
        parsed_files(Ok(pages)) == changed_file_list(listed_files(pages@)),
        parsed_files(Err(message)) matches Err(e) && has_text(e, message@),
        changed_or_message(Ok(files)) == Ok::<Seq<ChangedFile>, Seq<char>>(changed(files@)),
        changed_or_message(Err(message)) == Err::<Seq<ChangedFile>, Seq<char>>(message@),
{
    let e = "Could not parse PR file list: "@ + message@;
    assert(e =~= "Could not parse PR file list: "@ + message@ + Seq::<char>::empty());
    law_contained_text_has_surroundings(e, message@);
}

} // verus!
