//! Downloading both sides of every changed file: what is to be fetched, and how the events of the
//! downloads add up.

use vstd::prelude::*;

use crate::json::optional_text;
use crate::pr_files::{changed, ChangedFile, PrChangedFile};
use crate::text::{decimal, find_name, lemma_name_position, name_position, texts, to_decimal};

verus! {

/// Max concurrent `gh api` requests when fetching PR file contents.
/// GitHub's documented secondary rate limit caps concurrent requests at 100
/// (shared across REST+GraphQL); 8 keeps us comfortably under that while
/// still giving a large speedup over serial fetching.
pub const PR_FETCH_CONCURRENCY: usize = 8;

/// How many downloads run at once.
pub open spec fn workers(total: nat) -> nat {
    if total < PR_FETCH_CONCURRENCY {
        total
    } else {
        PR_FETCH_CONCURRENCY as nat
    }
}

/// Says how many downloads run at once.
pub fn worker_count(total: usize) -> (r: usize)
    ensures
        r == workers(total as nat),
{
    if total < PR_FETCH_CONCURRENCY {
        total
    } else {
        PR_FETCH_CONCURRENCY
    }
}

// ---------------------------------------------------------------------------------------------
// Tasks
// ---------------------------------------------------------------------------------------------

/// A side of a diff.
#[derive(Clone, Copy, Debug, PartialEq, Eq, Structural)]
pub enum Side {
    Old,
    New,
}

/// One download: a side of the file number `idx`.
pub struct FetchTask {
    pub idx: usize,
    pub filename: String,
    pub repo: String,
    pub git_ref: String,
    pub side: Side,
}

/// The view of a download.
pub struct Task {
    pub idx: int,
    pub filename: Seq<char>,
    pub repo: Seq<char>,
    pub git_ref: Seq<char>,
    pub side: Side,
}

impl View for FetchTask {
    type V = Task;

    open spec fn view(&self) -> Task {
        Task {
            idx: self.idx as int,
            filename: self.filename@,
            repo: self.repo@,
            git_ref: self.git_ref@,
            side: self.side,
        }
    }
}

/// The views of downloads.
pub open spec fn tasks(list: Seq<FetchTask>) -> Seq<Task> {
    list.map_values(|task: FetchTask| task@)
}

/// Where the two sides are fetched from: a repository and a reference each.
pub struct Sources {
    pub base_repo: Seq<char>,
    pub base_ref: Seq<char>,
    pub head_repo: Seq<char>,
    pub head_ref: Seq<char>,
}

/// The download of the old side of a file, if it has one.
pub open spec fn old_task(idx: int, file: ChangedFile, from: Sources) -> Seq<Task> {
    match file.old_path {
        Some(path) => seq![
            Task {
                idx,
                filename: path,
                repo: from.base_repo,
                git_ref: from.base_ref,
                side: Side::Old,
            },
        ],
        None => Seq::empty(),
    }
}

/// The download of the new side of a file, if it has one.
pub open spec fn new_task(idx: int, file: ChangedFile, from: Sources) -> Seq<Task> {
    match file.new_path {
        Some(path) => seq![
            Task {
                idx,
                filename: path,
                repo: from.head_repo,
                git_ref: from.head_ref,
                side: Side::New,
            },
        ],
        None => Seq::empty(),
    }
}

/// The downloads for all files, in the order of the list: of each file first the old side, then
/// the new one.
pub open spec fn tasks_in_order(files: Seq<ChangedFile>, from: Sources) -> Seq<Task>
    decreases files.len(),
{
    if files.len() == 0 {
        Seq::empty()
    } else {
        tasks_in_order(files.drop_last(), from) + old_task(files.len() - 1, files.last(), from)
            + new_task(files.len() - 1, files.last(), from)
    }
}

fn push_task(
    list: &mut Vec<FetchTask>,
    idx: usize,
    path: &Option<String>,
    repo: &str,
    git_ref: &str,
    side: Side,
)
    ensures
        tasks(final(list)@) == tasks(old(list)@) + (match optional_text(*path) {
            Some(filename) => seq![
                Task { idx: idx as int, filename, repo: repo@, git_ref: git_ref@, side },
            ],
            None => Seq::empty(),
        }),
{
    if let Some(path) = path {
        list.push(
            FetchTask {
                idx,
                filename: path.clone(),
                repo: repo.to_string(),
                git_ref: git_ref.to_string(),
                side,
            },
        );
    }
    assert(tasks(list@) =~= tasks(old(list)@) + (match optional_text(*path) {
        Some(filename) => seq![
            Task { idx: idx as int, filename, repo: repo@, git_ref: git_ref@, side },
        ],
        None => Seq::empty(),
    }));
}

/// The downloads for all files. They are taken from the back, so the last one comes first.
pub fn fetch_tasks(
    files: &[PrChangedFile],
    base_repo: &str,
    base_ref: &str,
    head_repo: &str,
    head_ref: &str,
) -> (r: Vec<FetchTask>)
    ensures
        ({
            let from = Sources {
                base_repo: base_repo@,
                base_ref: base_ref@,
                head_repo: head_repo@,
                head_ref: head_ref@,
            };
            tasks(r@) == tasks_in_order(changed(files@), from).reverse()
        }),
{
    let ghost from = Sources {
        base_repo: base_repo@,
        base_ref: base_ref@,
        head_repo: head_repo@,
        head_ref: head_ref@,
    };
    let ghost all = changed(files@);
    let mut ordered: Vec<FetchTask> = Vec::new();
    assert(all.take(0) =~= Seq::<ChangedFile>::empty());
    assert(tasks(ordered@) =~= Seq::<Task>::empty());
    for i in 0..files.len()
        invariant
            all == changed(files@),
            from == (Sources {
                base_repo: base_repo@,
                base_ref: base_ref@,
                head_repo: head_repo@,
                head_ref: head_ref@,
            }),
            tasks(ordered@) == tasks_in_order(all.take(i as int), from),
    {
        let file = &files[i];
        assert(all.take(i + 1).drop_last() =~= all.take(i as int));
        assert(all.take(i + 1).last() == file@);
        // Added/deleted files have only one side. Never mistake a failed
        // download for an absent side of the diff.
        push_task(&mut ordered, i, &file.old_path, base_repo, base_ref, Side::Old);
        push_task(&mut ordered, i, &file.new_path, head_repo, head_ref, Side::New);
    }
    assert(all.take(all.len() as int) =~= all);
    let ghost whole = ordered@;
    let mut reversed: Vec<FetchTask> = Vec::new();
    while ordered.len() > 0
        invariant
            ordered@.len() + reversed@.len() == whole.len(),
            ordered@ == whole.take(ordered@.len() as int),
            forall|k: int| 0 <= k < reversed@.len() ==> reversed@[k] == whole[whole.len() - 1 - k],
        decreases ordered@.len(),
    {
        let ghost was = ordered@;
        if let Some(task) = ordered.pop() {
            assert(ordered@ =~= whole.take(ordered@.len() as int));
            reversed.push(task);
        }
    }
    assert(tasks(reversed@) =~= tasks(whole).reverse());
    reversed
}

// ---------------------------------------------------------------------------------------------
// Events
// ---------------------------------------------------------------------------------------------

/// What happened to a download.
pub enum FetchEvent {
    /// The download of a file began.
    Started(String),
    /// The download of a side ended, with its content or with what went wrong.
    Finished { idx: usize, side: Side, filename: String, content: Result<String, String> },
}

/// The view of an event.
pub enum Event {
    Started(Seq<char>),
    Finished { idx: int, side: Side, filename: Seq<char>, content: Result<Seq<char>, Seq<char>> },
}

impl View for FetchEvent {
    type V = Event;

    open spec fn view(&self) -> Event {
        match self {
            FetchEvent::Started(name) => Event::Started(name@),
            FetchEvent::Finished { idx, side, filename, content } => Event::Finished {
                idx: *idx as int,
                side: *side,
                filename: filename@,
                content: crate::content::text_or_message(*content),
            },
        }
    }
}

/// How far the downloads are.
pub struct FetchState {
    contents: Vec<(String, String)>,
    done: usize,
    total: usize,
    first_error: Option<String>,
    in_flight: Vec<String>,
    last_finished: Option<String>,
}

/// The view of a state: the contents of both sides of each file, how many downloads ended and how
/// many there are, the first error, the files under way, and the file that was finished last.
pub struct Fetch {
    pub contents: Seq<(Seq<char>, Seq<char>)>,
    pub done: nat,
    pub total: nat,
    pub first_error: Option<Seq<char>>,
    pub in_flight: Seq<Seq<char>>,
    pub last_finished: Option<Seq<char>>,
}

/// The views of pairs of contents.
pub open spec fn content_pairs(list: Seq<(String, String)>) -> Seq<(Seq<char>, Seq<char>)> {
    list.map_values(|pair: (String, String)| (pair.0@, pair.1@))
}

impl View for FetchState {
    type V = Fetch;

    closed spec fn view(&self) -> Fetch {
        Fetch {
            contents: content_pairs(self.contents@),
            done: self.done as nat,
            total: self.total as nat,
            first_error: optional_text(self.first_error),
            in_flight: texts(self.in_flight@),
            last_finished: optional_text(self.last_finished),
        }
    }
}

/// The state before the first event, for `n` files and `total` downloads.
pub open spec fn fetch_start(n: nat, total: nat) -> Fetch {
    Fetch {
        contents: Seq::new(n, |i: int| (Seq::empty(), Seq::empty())),
        done: 0,
        total,
        first_error: None,
        in_flight: Seq::empty(),
        last_finished: None,
    }
}

/// `list` without the first `name` in it, whose place the last entry takes.
pub open spec fn without_first(list: Seq<Seq<char>>, name: Seq<char>) -> Seq<Seq<char>> {
    match name_position(list, name, 0) {
        Some(pos) => list.update(pos, list.last()).drop_last(),
        None => list,
    }
}

/// The contents once a side has arrived.
pub open spec fn with_content(
    contents: Seq<(Seq<char>, Seq<char>)>,
    idx: int,
    side: Side,
    content: Seq<char>,
) -> Seq<(Seq<char>, Seq<char>)> {
    match side {
        Side::Old => contents.update(idx, (content, contents[idx].1)),
        Side::New => contents.update(idx, (contents[idx].0, content)),
    }
}

/// The first error, given one that comes now.
pub open spec fn error_kept(first: Option<Seq<char>>, now: Seq<char>) -> Option<Seq<char>> {
    match first {
        Some(e) => Some(e),
        None => Some(now),
    }
}

/// The state after an event.
pub open spec fn fetch_after(state: Fetch, event: Event) -> Fetch {
    match event {
        Event::Started(name) => Fetch { in_flight: state.in_flight.push(name), ..state },
        Event::Finished { idx, side, filename, content } => Fetch {
            contents: match content {
                Ok(content) => with_content(state.contents, idx, side, content),
                Err(_) => state.contents,
            },
            done: state.done + 1,
            total: state.total,
            first_error: match content {
                Ok(_) => state.first_error,
                Err(e) => error_kept(state.first_error, e),
            },
            in_flight: without_first(state.in_flight, filename),
            last_finished: Some(filename),
        },
    }
}

/// What the downloads came to: the contents, or the first error.
pub open spec fn fetch_result(state: Fetch) -> Result<
    Seq<(Seq<char>, Seq<char>)>,
    Seq<char>,
> {
    match state.first_error {
        Some(e) => Err(e),
        None => Ok(state.contents),
    }
}

/// How a progress line ends: with the file under way, else with the one finished last.
pub open spec fn progress_name(
    in_flight: Seq<Seq<char>>,
    last_finished: Option<Seq<char>>,
) -> Seq<char> {
    if in_flight.len() > 0 {
        in_flight.last()
    } else {
        match last_finished {
            Some(name) => name,
            None => Seq::empty(),
        }
    }
}

/// The progress line.
pub open spec fn progress_line(done: nat, total: nat, name: Seq<char>) -> Seq<char> {
    let counts = "Fetching files ["@ + decimal(done) + "/"@ + decimal(total) + "]"@;
    if name.len() == 0 {
        counts
    } else {
        counts + " · "@ + name
    }
}

/// The view of an optional name.
pub open spec fn optional_name(name: Option<&str>) -> Option<Seq<char>> {
    match name {
        Some(name) => Some(name@),
        None => None,
    }
}

/// Writes the progress line.
pub fn format_fetch_progress(
    done: usize,
    total: usize,
    in_flight: &[String],
    last_finished: Option<&str>,
) -> (r: String)
    ensures
        r@ == progress_line(
            done as nat,
            total as nat,
            progress_name(texts(in_flight@), optional_name(last_finished)),
        ),
{
    let current = if in_flight.len() > 0 {
        in_flight[in_flight.len() - 1].clone()
    } else {
        match last_finished {
            Some(name) => name.to_string(),
            None => String::new(),
        }
    };
    let mut line = "Fetching files [".to_string();
    line.append(to_decimal(done as u64).as_str());
    line.append("/");
    line.append(to_decimal(total as u64).as_str());
    line.append("]");
    if !current.as_str().is_empty() {
        line.append(" · ");
        line.append(current.as_str());
    }
    line
}

impl FetchState {
    /// The state before the first event, for `n` files and `total` downloads.
    pub fn new(n: usize, total: usize) -> (r: FetchState)
        ensures
            r@ == fetch_start(n as nat, total as nat),
    {
        let mut contents: Vec<(String, String)> = Vec::new();
        for i in 0..n
            invariant
                contents@.len() == i,
                forall|k: int|
                    0 <= k < i ==> (#[trigger] contents@[k]).0@ == Seq::<char>::empty()
                        && contents@[k].1@ == Seq::<char>::empty(),
        {
            contents.push((String::new(), String::new()));
        }
        let state = FetchState {
            contents,
            done: 0,
            total,
            first_error: None,
            in_flight: Vec::new(),
            last_finished: None,
        };
        assert(state@.contents =~= fetch_start(n as nat, total as nat).contents);
        assert(state@.in_flight =~= Seq::<Seq<char>>::empty());
        state
    }

    /// Takes note of an event.
    pub fn apply(&mut self, event: FetchEvent)
        requires
            event@ matches Event::Finished { idx, content, .. } ==> old(self)@.done < usize::MAX && (
            content is Ok ==> idx < old(self)@.contents.len()),
        ensures
            final(self)@ == fetch_after(old(self)@, event@),
    {
        match event {
            FetchEvent::Started(name) => {
                let ghost was = texts(self.in_flight@);
                let ghost added = name@;
                self.in_flight.push(name);
                assert(texts(self.in_flight@) =~= was.push(added));
            },
            FetchEvent::Finished { idx, side, filename, content } => {
                let ghost names = texts(self.in_flight@);
                if let Some(pos) = find_name(&self.in_flight, filename.as_str()) {
                    let _ = self.in_flight.swap_remove(pos);
                    assert(texts(self.in_flight@) =~= without_first(names, filename@));
                }
                let ghost pairs = content_pairs(self.contents@);
                match content {
                    Ok(content) => {
                        let ghost arrived = content@;
                        match side {
                            Side::Old => {
                                let other = self.contents[idx].1.clone();
                                self.contents.set(idx, (content, other));
                            },
                            Side::New => {
                                let other = self.contents[idx].0.clone();
                                self.contents.set(idx, (other, content));
                            },
                        }
                        assert(content_pairs(self.contents@) =~= with_content(
                            pairs,
                            idx as int,
                            side,
                            arrived,
                        ));
                    },
                    Err(e) => {
                        if self.first_error.is_none() {
                            self.first_error = Some(e);
                        }
                    },
                }
                self.done += 1;
                self.last_finished = Some(filename);
            },
        }
    }

    /// Takes note that a worker broke down.
    pub fn worker_failed(&mut self)
        ensures
            final(self)@ == (Fetch {
                first_error: error_kept(
                    old(self)@.first_error,
                    "PR file download worker failed"@,
                ),
                ..old(self)@
            }),
    {
        if self.first_error.is_none() {
            self.first_error = Some("PR file download worker failed".to_string());
        }
    }

    /// The progress line for this state.
    pub fn progress(&self) -> (r: String)
        ensures
            r@ == progress_line(
                self@.done,
                self@.total,
                progress_name(self@.in_flight, self@.last_finished),
            ),
    {
        let last = match &self.last_finished {
            Some(name) => Some(name.as_str()),
            None => None,
        };
        format_fetch_progress(self.done, self.total, &self.in_flight, last)
    }

    /// What the downloads came to: the contents of both sides of each file, or the first error.
    pub fn finish(self) -> (r: Result<Vec<(String, String)>, String>)
        ensures
            match r {
                Ok(contents) => fetch_result(self@) == Ok::<Seq<(Seq<char>, Seq<char>)>, Seq<char>>(
                    content_pairs(contents@),
                ),
                Err(e) => fetch_result(self@) == Err::<Seq<(Seq<char>, Seq<char>)>, Seq<char>>(e@),
            },
    {
        match self.first_error {
            Some(e) => Err(e),
            None => Ok(self.contents),
        }
    }
}

// ---------------------------------------------------------------------------------------------
// What holds of the tasks
// ---------------------------------------------------------------------------------------------

/// The path of a side of a file.
pub open spec fn side_path(file: ChangedFile, side: Side) -> Option<Seq<char>> {
    match side {
        Side::Old => file.old_path,
        Side::New => file.new_path,
    }
}

/// Every download is for a side that its file has, from the place where that side is kept.
pub proof fn law_tasks_belong(files: Seq<ChangedFile>, from: Sources, k: int)
    requires
        0 <= k < tasks_in_order(files, from).len(),
    ensures
        ({
            let task = tasks_in_order(files, from)[k];
            &&& 0 <= task.idx < files.len()
            &&& side_path(files[task.idx], task.side) == Some(task.filename)
            &&& task.side == Side::Old ==> task.repo == from.base_repo && task.git_ref
                == from.base_ref
            &&& task.side == Side::New ==> task.repo == from.head_repo && task.git_ref
                == from.head_ref
        }),
    decreases files.len(),
{
    if files.len() > 0 {
        let before = tasks_in_order(files.drop_last(), from);
        if k < before.len() {
            law_tasks_belong(files.drop_last(), from, k);
            let task = before[k];
            assert(files.drop_last()[task.idx] == files[task.idx]);
        } else {
            let own = old_task(files.len() - 1, files.last(), from) + new_task(
                files.len() - 1,
                files.last(),
                from,
            );
            assert(tasks_in_order(files, from) =~= before + own);
            assert(tasks_in_order(files, from)[k] == own[k - before.len()]);
        }
    }
}

/// Every side that a file has is downloaded.
pub proof fn law_every_side_has_a_task(
    files: Seq<ChangedFile>,
    from: Sources,
    idx: int,
    side: Side,
)
    requires
        0 <= idx < files.len(),
        side_path(files[idx], side) is Some,
    ensures
        exists|k: int|
            0 <= k < tasks_in_order(files, from).len() && (#[trigger] tasks_in_order(
                files,
                from,
            )[k]).idx == idx && tasks_in_order(files, from)[k].side == side,
    decreases files.len(),
{
    let before = tasks_in_order(files.drop_last(), from);
    let all = tasks_in_order(files, from);
    if idx < files.len() - 1 {
        assert(files.drop_last()[idx] == files[idx]);
        law_every_side_has_a_task(files.drop_last(), from, idx, side);
        let k = choose|k: int|
            0 <= k < before.len() && (#[trigger] before[k]).idx == idx && before[k].side == side;
        assert(all[k] == before[k]);
    } else {
        let old = old_task(idx, files.last(), from);
        match side {
            Side::Old => {
                assert(all[before.len() as int] == old[0]);
            },
            Side::New => {
                assert(all[(before.len() + old.len()) as int] == new_task(idx, files.last(), from)[0]);
            },
        }
    }
}

/// Downloads go through the files in the order of the list, of each file first the old side. So
/// no side is downloaded twice.
pub proof fn law_tasks_in_listed_order(files: Seq<ChangedFile>, from: Sources, k: int, l: int)
    requires
        0 <= k < l < tasks_in_order(files, from).len(),
    ensures
        ({
            let first = tasks_in_order(files, from)[k];
            let second = tasks_in_order(files, from)[l];
            first.idx < second.idx || (first.idx == second.idx && first.side == Side::Old
                && second.side == Side::New)
        }),
    decreases files.len(),
{
    if files.len() > 0 {
        let before = tasks_in_order(files.drop_last(), from);
        let own = old_task(files.len() - 1, files.last(), from) + new_task(
            files.len() - 1,
            files.last(),
            from,
        );
        let all = tasks_in_order(files, from);
        assert(all =~= before + own);
        if l < before.len() {
            law_tasks_in_listed_order(files.drop_last(), from, k, l);
        } else if k < before.len() {
            law_tasks_belong(files.drop_last(), from, k);
            assert(all[l] == own[l - before.len()]);
        } else {
            assert(all[k] == own[k - before.len()]);
            assert(all[l] == own[l - before.len()]);
        }
    }
}

// ---------------------------------------------------------------------------------------------
// What holds of every course of events
// ---------------------------------------------------------------------------------------------

/// The state after a course of events.
pub open spec fn fetch_run(state: Fetch, events: Seq<Event>) -> Fetch
    decreases events.len(),
{
    if events.len() == 0 {
        state
    } else {
        fetch_after(fetch_run(state, events.drop_last()), events.last())
    }
}

/// How many downloads ended.
pub open spec fn finished(events: Seq<Event>) -> nat
    decreases events.len(),
{
    if events.len() == 0 {
        0
    } else {
        finished(events.drop_last()) + if events.last() is Finished {
            1nat
        } else {
            0nat
        }
    }
}

/// Whether an event is a download that failed with the message `e`.
pub open spec fn fails_with(event: Event, e: Seq<char>) -> bool {
    event matches Event::Finished { content, .. } && content == Err::<Seq<char>, Seq<char>>(e)
}

/// Whether an event is a download that failed.
pub open spec fn fails(event: Event) -> bool {
    event matches Event::Finished { content, .. } && content is Err
}

/// Whether an event is the arrival of a side.
pub open spec fn arrives(event: Event, idx: int, side: Side, text: Seq<char>) -> bool {
    event matches Event::Finished { idx: i, side: s, content, .. } && i == idx && s == side
        && content == Ok::<Seq<char>, Seq<char>>(text)
}

/// Whether an event is the arrival of a side, with whatever content.
pub open spec fn is_arrival(event: Event, idx: int, side: Side) -> bool {
    event matches Event::Finished { idx: i, side: s, content, .. } && i == idx && s == side
        && content is Ok
}

/// Whether all contents that arrive are for one of the `n` files.
pub open spec fn for_files(events: Seq<Event>, n: nat) -> bool {
    forall|k: int|
        0 <= k < events.len() ==> (#[trigger] events[k] matches Event::Finished {
            idx,
            content,
            ..
        } ==> content is Ok ==> 0 <= idx < n)
}

/// A side of a pair of contents.
pub open spec fn side_content(pair: (Seq<char>, Seq<char>), side: Side) -> Seq<char> {
    match side {
        Side::Old => pair.0,
        Side::New => pair.1,
    }
}

/// The progress counts exactly the downloads that ended.
pub proof fn law_progress_counts_finished(state: Fetch, events: Seq<Event>)
    ensures
        fetch_run(state, events).done == state.done + finished(events),
        fetch_run(state, events).total == state.total,
    decreases events.len(),
{
    if events.len() > 0 {
        law_progress_counts_finished(state, events.drop_last());
    }
}

proof fn lemma_contents_len(n: nat, total: nat, events: Seq<Event>)
    requires
        for_files(events, n),
    ensures
        fetch_run(fetch_start(n, total), events).contents.len() == n,
    decreases events.len(),
{
    if events.len() > 0 {
        let before = events.drop_last();
        assert forall|j: int| 0 <= j < before.len() implies before[j] == events[j] by {}
        lemma_contents_len(n, total, before);
        assert(events[events.len() - 1] == events.last());
    }
}

/// A failed download is never mistaken for an absent side: if a download fails, the result is an
/// error, and it is that of the first download that failed. If none fails, the result is the
/// contents.
pub proof fn law_failed_download_is_an_error(n: nat, total: nat, events: Seq<Event>)
    ensures
        ({
            let result = fetch_result(fetch_run(fetch_start(n, total), events));
            &&& result is Err <==> exists|k: int| 0 <= k < events.len() && fails(#[trigger] events[k])
            &&& result matches Err(e) ==> exists|k: int|
                0 <= k < events.len() && fails_with(#[trigger] events[k], e) && forall|j: int|
                    0 <= j < k ==> !fails(#[trigger] events[j])
        }),
    decreases events.len(),
{
    if events.len() > 0 {
        let before = events.drop_last();
        law_failed_download_is_an_error(n, total, before);
        let state = fetch_run(fetch_start(n, total), before);
        assert forall|k: int| 0 <= k < before.len() implies before[k] == events[k] by {}
        match fetch_result(state) {
            Err(e) => {
                let k = choose|k: int|
                    0 <= k < before.len() && fails_with(#[trigger] before[k], e) && forall|j: int|
                        0 <= j < k ==> !fails(#[trigger] before[j]);
                assert(fails_with(events[k], e));
                assert(fails(events[k]));
                assert forall|j: int| 0 <= j < k implies !fails(#[trigger] events[j]) by {
                    assert(!fails(before[j]));
                }
            },
            Ok(_) => {
                assert forall|j: int| 0 <= j < before.len() implies !fails(#[trigger] events[j]) by {
                    assert(!fails(before[j]));
                }
                let last = events.len() - 1;
                if fails(events[last]) {
                    match fetch_result(fetch_run(fetch_start(n, total), events)) {
                        Err(e) => {
                            assert(fails_with(events[last], e));
                        },
                        Ok(_) => {},
                    }
                }
            },
        }
    }
}

/// A side that arrives is kept for its file, whatever else happens before or after, until the
/// same side arrives again.
pub proof fn law_arrived_side_is_kept(
    n: nat,
    total: nat,
    events: Seq<Event>,
    k: int,
    idx: int,
    side: Side,
    text: Seq<char>,
)
    requires
        for_files(events, n),
        0 <= k < events.len(),
        arrives(events[k], idx, side, text),
        forall|j: int| k < j < events.len() ==> !is_arrival(#[trigger] events[j], idx, side),
    ensures
        0 <= idx < n,
        side_content(fetch_run(fetch_start(n, total), events).contents[idx], side) == text,
    decreases events.len(),
{
    let before = events.drop_last();
    assert forall|j: int| 0 <= j < before.len() implies before[j] == events[j] by {}
    lemma_contents_len(n, total, before);
    if k < events.len() - 1 {
        law_arrived_side_is_kept(n, total, before, k, idx, side, text);
        let last = events[events.len() - 1];
        match last {
            Event::Finished { idx: i, side: s, content: Ok(c), .. } => {
                assert(!is_arrival(last, idx, side));
                assert(0 <= i < n);
            },
            _ => {},
        }
    }
}

/// A side that never arrives stays empty.
pub proof fn law_absent_side_is_empty(
    n: nat,
    total: nat,
    events: Seq<Event>,
    idx: int,
    side: Side,
)
    requires
        for_files(events, n),
        0 <= idx < n,
        forall|j: int| 0 <= j < events.len() ==> !is_arrival(#[trigger] events[j], idx, side),
    ensures
        side_content(fetch_run(fetch_start(n, total), events).contents[idx], side) == Seq::<
            char,
        >::empty(),
    decreases events.len(),
{
    if events.len() > 0 {
        let before = events.drop_last();
        assert forall|j: int| 0 <= j < before.len() implies before[j] == events[j] by {}
        lemma_contents_len(n, total, before);
        law_absent_side_is_empty(n, total, before, idx, side);
        let last = events[events.len() - 1];
        match last {
            Event::Finished { idx: i, side: s, content: Ok(c), .. } => {
                assert(!is_arrival(last, idx, side));
                assert(0 <= i < n);
            },
            _ => {},
        }
    }
}

// ---------------------------------------------------------------------------------------------
// What holds when every download has ended
// ---------------------------------------------------------------------------------------------

/// Whether an event is the end of a download, whatever it came to.
pub open spec fn ends(event: Event, task: Task) -> bool {
    event matches Event::Finished { idx, side, filename, .. } && idx == task.idx && side
        == task.side && filename == task.filename
}

/// Whether every download ends once, in whatever order, and nothing else does: each of them ends,
/// what ends is one of them, and no side of a file ends twice.
pub open spec fn all_end(events: Seq<Event>, list: Seq<Task>) -> bool {
    &&& forall|k: int|
        0 <= k < list.len() ==> exists|j: int|
            0 <= j < events.len() && ends(#[trigger] events[j], #[trigger] list[k])
    &&& forall|j: int|
        0 <= j < events.len() && (#[trigger] events[j]) is Finished ==> exists|k: int|
            0 <= k < list.len() && ends(events[j], #[trigger] list[k])
    &&& forall|i: int, j: int|
        0 <= i < j < events.len() && (#[trigger] events[i]) is Finished && (
        #[trigger] events[j]) is Finished ==> events[i]->idx != events[j]->idx || events[i]->side
            != events[j]->side
}

/// Whether a download of the file `path` as a side of the file number `idx` brought `text`.
pub open spec fn brought(
    events: Seq<Event>,
    idx: int,
    side: Side,
    path: Seq<char>,
    text: Seq<char>,
) -> bool {
    exists|j: int|
        0 <= j < events.len() && arrives(#[trigger] events[j], idx, side, text)
            && events[j]->filename == path
}

/// When every download has ended, in whatever order, the result is the contents exactly if all
/// downloads succeeded. Each side that a file has is then what its own download brought, and a side
/// that a file does not have is empty.
pub proof fn law_downloads_come_together(
    files: Seq<ChangedFile>,
    from: Sources,
    total: nat,
    events: Seq<Event>,
)
    requires
        all_end(events, tasks_in_order(files, from)),
    ensures
        ({
            let result = fetch_result(fetch_run(fetch_start(files.len(), total), events));
            &&& result is Ok <==> forall|j: int| 0 <= j < events.len() ==> !fails(
                #[trigger] events[j],
            )
            &&& result matches Ok(contents) ==> {
                &&& contents.len() == files.len()
                &&& forall|i: int, side: Side|
                    0 <= i < files.len() ==> match side_path(files[i], side) {
                        Some(path) => brought(
                            events,
                            i,
                            side,
                            path,
                            #[trigger] side_content(contents[i], side),
                        ),
                        None => side_content(contents[i], side) == Seq::<char>::empty(),
                    }
            }
        }),
{
    let list = tasks_in_order(files, from);
    let n = files.len();
    let state = fetch_run(fetch_start(n, total), events);
    law_failed_download_is_an_error(n, total, events);
    assert(for_files(events, n)) by {
        assert forall|j: int| 0 <= j < events.len() implies (#[trigger] events[j] matches
        Event::Finished { idx, content, .. } ==> content is Ok ==> 0 <= idx < n) by {
            if events[j] is Finished {
                let k = choose|k: int| 0 <= k < list.len() && ends(events[j], #[trigger] list[k]);
                law_tasks_belong(files, from, k);
            }
        }
    }
    lemma_contents_len(n, total, events);
    if let Ok(contents) = fetch_result(state) {
        assert forall|i: int, side: Side| 0 <= i < n implies match side_path(files[i], side) {
            Some(path) => brought(
                events,
                i,
                side,
                path,
                #[trigger] side_content(contents[i], side),
            ),
            None => side_content(contents[i], side) == Seq::<char>::empty(),
        } by {
            lemma_side_come_together(files, from, total, events, i, side);
        }
    }
}

proof fn lemma_side_come_together(
    files: Seq<ChangedFile>,
    from: Sources,
    total: nat,
    events: Seq<Event>,
    i: int,
    side: Side,
)
    requires
        all_end(events, tasks_in_order(files, from)),
        for_files(events, files.len()),
        forall|j: int| 0 <= j < events.len() ==> !fails(#[trigger] events[j]),
        0 <= i < files.len(),
    ensures
        ({
            let text = side_content(
                fetch_run(fetch_start(files.len(), total), events).contents[i],
                side,
            );
            match side_path(files[i], side) {
                Some(path) => brought(events, i, side, path, text),
                None => text == Seq::<char>::empty(),
            }
        }),
{
    let list = tasks_in_order(files, from);
    let n = files.len();
    match side_path(files[i], side) {
        Some(path) => {
            law_every_side_has_a_task(files, from, i, side);
            let k = choose|k: int|
                0 <= k < list.len() && (#[trigger] list[k]).idx == i && list[k].side == side;
            law_tasks_belong(files, from, k);
            let j = choose|j: int|
                0 <= j < events.len() && ends(#[trigger] events[j], list[k]);
            assert(!fails(events[j]));
            match events[j] {
                Event::Finished { content: Ok(text), .. } => {
                    assert(arrives(events[j], i, side, text));
                    assert forall|l: int| j < l < events.len() implies !is_arrival(
                        #[trigger] events[l],
                        i,
                        side,
                    ) by {
                        if is_arrival(events[l], i, side) {
                            assert(events[j] is Finished && events[l] is Finished);
                        }
                    }
                    law_arrived_side_is_kept(n, total, events, j, i, side, text);
                },
                _ => {},
            }
        },
        None => {
            assert forall|j: int| 0 <= j < events.len() implies !is_arrival(
                #[trigger] events[j],
                i,
                side,
            ) by {
                if is_arrival(events[j], i, side) {
                    let k = choose|k: int|
                        0 <= k < list.len() && ends(events[j], #[trigger] list[k]);
                    law_tasks_belong(files, from, k);
                }
            }
            law_absent_side_is_empty(n, total, events, i, side);
        },
    }
}

// ---------------------------------------------------------------------------------------------
// What the views mean
// ---------------------------------------------------------------------------------------------

/// The views of downloads, events and contents keep every part of them.
pub proof fn law_fetch_views_keep_all_parts(
    list: Seq<FetchTask>,
    event: FetchEvent,
    contents: Seq<(String, String)>,
)
    ensures
        tasks(list).len() == list.len(),
        forall|k: int|
            0 <= k < list.len() ==> {
                let task = #[trigger] tasks(list)[k];
                &&& task.idx == list[k].idx && task.side == list[k].side
                &&& task.filename == list[k].filename@
                &&& task.repo == list[k].repo@
                &&& task.git_ref == list[k].git_ref@
            },
        event matches FetchEvent::Started(name) ==> event@ == Event::Started(name@),
        event matches FetchEvent::Finished { idx, side, filename, content } ==> {
            &&& event@ is Finished
            &&& event@->idx == idx && event@->side == side && event@->filename == filename@
            &&& content matches Ok(text) ==> event@->content == Ok::<Seq<char>, Seq<char>>(text@)
            &&& content matches Err(e) ==> event@->content == Err::<Seq<char>, Seq<char>>(e@)
        },
        content_pairs(contents).len() == contents.len(),
        forall|i: int|
            0 <= i < contents.len() ==> (#[trigger] content_pairs(contents)[i]).0 == contents[i].0@
                && content_pairs(contents)[i].1 == contents[i].1@,
{
}

/// A file that begins to be downloaded is added to those under way, and the line names it. One that
/// ends is taken out of them once, its place is filled by the one added last, and nothing else
/// moves; if none is left, the line names the one that ended.
pub proof fn law_files_under_way(state: Fetch, name: Seq<char>, event: Event)
    requires
        event is Finished,
        event->filename == name,
    ensures
        ({
            let started = fetch_after(state, Event::Started(name));
            &&& started.in_flight == state.in_flight.push(name)
            &&& progress_name(started.in_flight, started.last_finished) == name
            &&& started.contents == state.contents && started.done == state.done
        }),
        ({
            let before = state.in_flight;
            let after = fetch_after(state, event).in_flight;
            &&& !before.contains(name) ==> after == before
            &&& before.contains(name) ==> exists|p: int|
                {
                    &&& 0 <= p < before.len()
                    &&& #[trigger] before[p] == name
                    &&& forall|j: int| 0 <= j < p ==> before[j] != name
                    &&& after.len() == before.len() - 1
                    &&& forall|j: int|
                        0 <= j < after.len() ==> #[trigger] after[j] == if j == p {
                            before.last()
                        } else {
                            before[j]
                        }
                }
            &&& after.len() == 0 ==> progress_name(
                after,
                fetch_after(state, event).last_finished,
            ) == name
            &&& after.len() > 0 ==> progress_name(after, fetch_after(state, event).last_finished)
                == after.last()
        }),
{
    let before = state.in_flight;
    lemma_name_position(before, name, 0);
    match name_position(before, name, 0) {
        Some(p) => {
            assert(before[p] == name);
            assert(before.contains(name));
        },
        None => {
            assert(!before.contains(name));
        },
    }
}

/// The line tells how many downloads have ended and how many there are, and behind a dot the file,
/// if one is to be named. With nothing under way and nothing ended it names none.
pub proof fn law_progress_line_tells_counts(done: nat, total: nat, name: Seq<char>)
    ensures
        progress_line(done, total, Seq::empty()) == "Fetching files ["@ + decimal(done) + "/"@
            + decimal(total) + "]"@,
        name.len() > 0 ==> progress_line(done, total, name) == progress_line(
            done,
            total,
            Seq::empty(),
        ) + " · "@ + name,
        progress_name(Seq::empty(), None).len() == 0,
        progress_name(Seq::empty(), Some(name)) == name,
{
}

/// The first error stays; a later one does not replace it.
pub proof fn law_first_error_stays(first: Seq<char>, later: Seq<char>)
    ensures
        error_kept(None, first) == Some(first),
        error_kept(error_kept(None, first), later) == Some(first),
{
}

/// The old side of a file has the old path, and the new side the new one.
pub proof fn law_sides_have_their_paths(file: ChangedFile, pair: (Seq<char>, Seq<char>))
    ensures
        side_path(file, Side::Old) == file.old_path,
        side_path(file, Side::New) == file.new_path,
        side_content(pair, Side::Old) == pair.0,
        side_content(pair, Side::New) == pair.1,
{
}

/// There are never more workers than downloads or than eight, and as many as that allows; so every
/// download finds a worker.
pub proof fn law_workers_are_bounded(total: nat)
    ensures
        workers(total) <= total,
        workers(total) <= 8,
        workers(total) == total || workers(total) == 8,
        total > 0 ==> workers(total) > 0,
{
}

} // verus!
