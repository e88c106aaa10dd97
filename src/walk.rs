//! The directory walk as a state machine: a stack of directory listings still
//! to visit, depth first and in listing order, checked for cancellation before
//! each entry. The caller lists directories and handles files; the walker
//! decides what to do next.
use vstd::prelude::*;

use tokio_util::sync::CancellationToken;

use crate::media::{get_mediatype, media_type_of, normalize_extension, normalized_extension, MediaType};
use crate::path::{
    extension_of, extract_path_components, file_name_text, path_extension, texts, upper_folders,
};

verus! {

#[verifier::external_type_specification]
#[verifier::external_body]
pub struct ExCancellationToken(CancellationToken);

/// Relies on `tokio_util::sync::CancellationToken::is_cancelled`, which reports
/// whether cancellation was requested. Another task may request it at any
/// moment, so nothing is promised of the answer.
pub assume_specification[ CancellationToken::is_cancelled ](token: &CancellationToken) -> bool;

/// How many directory names above a file are recorded for it.
pub const PATH_LEVELS: usize = 3;

/// One entry of a directory listing.
#[derive(Clone, Debug)]
pub struct DirEntryInfo {
    pub path: String,
    pub is_dir: bool,
    pub is_file: bool,
}

/// The view of an entry: its path, whether it is a directory, whether it is a
/// regular file.
pub type EntryView = (Seq<char>, bool, bool);

pub open spec fn entry_view(e: DirEntryInfo) -> EntryView {
    (e.path@, e.is_dir, e.is_file)
}

pub open spec fn listing_view(v: Seq<DirEntryInfo>) -> Seq<EntryView> {
    v.map_values(|e: DirEntryInfo| entry_view(e))
}

/// What the walk computed for a file with an extension.
#[derive(Clone, Debug)]
pub struct FileTask {
    pub path: String,
    pub extension: String,
    pub media_type: MediaType,
    pub upper_folders: Vec<String>,
    pub file_name: String,
}

/// The next thing to do in a walk.
#[derive(Clone, Debug)]
pub enum WalkAction {
    /// List this directory and hand its entries to `enter`.
    Descend(String),
    /// A file with an extension, classified and analysed.
    Process(FileTask),
    /// An entry that needs no work: a file without an extension, or a
    /// directory when traversal is switched off.
    Skip(String),
    /// Every entry has been visited.
    Done,
    /// Cancellation was requested; nothing more is visited.
    Cancelled,
}

/// `t` is the task for the file at `path`.
pub open spec fn task_for(path: Seq<char>, is_file: bool, t: FileTask) -> bool {
    &&& extension_of(path) is Some
    &&& t.path@ == path
    &&& t.extension@ == normalized_extension(extension_of(path)->0)
    &&& t.media_type == media_type_of(t.extension@)
    &&& texts(t.upper_folders@) == upper_folders(path, is_file, PATH_LEVELS as nat)
    &&& t.file_name@ == file_name_text(path)
}

/// `a` is what visiting entry `e` calls for.
pub open spec fn action_for(e: EntryView, no_traverse: bool, a: WalkAction) -> bool {
    match a {
        WalkAction::Descend(p) => e.1 && !no_traverse && p@ == e.0,
        WalkAction::Process(t) => !e.1 && task_for(e.0, e.2, t),
        WalkAction::Skip(p) => p@ == e.0 && ((e.1 && no_traverse) || (!e.1 && extension_of(
            e.0,
        ) is None)),
        _ => false,
    }
}

/// The pending listings without the exhausted ones on top.
pub open spec fn trim(st: Seq<Seq<EntryView>>) -> Seq<Seq<EntryView>>
    decreases st.len(),
{
    if st.len() > 0 && st.last().len() == 0 {
        trim(st.drop_last())
    } else {
        st
    }
}

/// One step of the walk from the pending listings `st`: `a` is the action and
/// `next` the pending listings after it, given whether cancellation was seen.
pub open spec fn step(
    st: Seq<Seq<EntryView>>,
    no_traverse: bool,
    cancelled: bool,
    next: Seq<Seq<EntryView>>,
    a: WalkAction,
) -> bool {
    let t = trim(st);
    if cancelled {
        a is Cancelled && next == st
    } else if t.len() == 0 {
        a is Done && next == t
    } else {
        &&& next == t.update(t.len() - 1, t.last().drop_first())
        &&& action_for(t.last()[0], no_traverse, a)
    }
}

/// A walk in progress.
pub struct Walker {
    /// Each pending listing, last entry first.
    frames: Vec<Vec<DirEntryInfo>>,
    no_traverse: bool,
}

/// The entries of a reversed listing, in visiting order.
pub open spec fn pending(f: Seq<DirEntryInfo>) -> Seq<EntryView> {
    Seq::new(f.len(), |i: int| entry_view(f[f.len() - 1 - i]))
}

impl Walker {
    /// The pending listings, innermost last, each in visiting order.
    pub closed spec fn view(&self) -> Seq<Seq<EntryView>> {
        Seq::new(self.frames@.len(), |k: int| pending(self.frames@[k]@))
    }

    /// Whether subdirectories are skipped rather than entered.
    pub closed spec fn skips_subdirectories(&self) -> bool {
        self.no_traverse
    }

    /// Starts a walk over the listing of its root directory.
    pub fn new(root_listing: Vec<DirEntryInfo>, no_traverse: bool) -> (w: Walker)
        ensures
            w.view() == seq![listing_view(root_listing@)],
            w.skips_subdirectories() == no_traverse,
    {
        let mut w = Walker { frames: Vec::new(), no_traverse };
        w.enter(root_listing);
        proof {
            assert(w.view() =~= seq![listing_view(root_listing@)]);
        }
        w
    }

    /// Pushes the listing of a directory that the walk descends into.
    pub fn enter(&mut self, listing: Vec<DirEntryInfo>)
        ensures
            final(self).view() == old(self).view().push(listing_view(listing@)),
            final(self).skips_subdirectories() == old(self).skips_subdirectories(),
    {
        let ghost all = listing@;
        let mut rest = listing;
        let mut rev: Vec<DirEntryInfo> = Vec::new();
        while rest.len() > 0
            invariant
                rest@ == all.take(rest@.len() as int),
                rev@.len() == all.len() - rest@.len(),
                forall|j: int|
                    0 <= j < rev@.len() ==> #[trigger] rev@[j] == all[all.len() - 1 - j],
            decreases rest@.len(),
        {
            let ghost k = rest@.len();
            let e = rest.pop().unwrap();
            rev.push(e);
            proof {
                assert(rest@ =~= all.take(k - 1));
            }
        }
        let ghost before = self.view();
        self.frames.push(rev);
        proof {
            assert(pending(rev@) =~= listing_view(all));
            assert(self.view() =~= before.push(listing_view(all)));
        }
    }

    proof fn lemma_trim_pop(st: Seq<Seq<EntryView>>)
        requires
            st.len() > 0,
            st.last().len() == 0,
        ensures
            trim(st) == trim(st.drop_last()),
    {
    }

    /// Decides the next step of the walk, given whether cancellation was
    /// requested.
    pub fn next_with(&mut self, cancelled: bool) -> (a: WalkAction)
        ensures
            step(old(self).view(), old(self).skips_subdirectories(), cancelled, final(self).view(), a),
            final(self).skips_subdirectories() == old(self).skips_subdirectories(),
    {
        if cancelled {
            return WalkAction::Cancelled;
        }
        let ghost st0 = self.view();
        loop
            invariant
                trim(self.view()) == trim(st0),
                self.no_traverse == old(self).no_traverse,
            ensures
                trim(self.view()) == trim(st0),
                self.no_traverse == old(self).no_traverse,
                self.frames@.len() == 0 || self.frames@.last()@.len() > 0,
            decreases self.frames@.len(),
        {
            let n = self.frames.len();
            if n == 0 {
                break;
            }
            if self.frames[n - 1].len() > 0 {
                break;
            }
            let ghost before = self.view();
            self.frames.pop();
            proof {
                Self::lemma_trim_pop(before);
                assert(self.view() =~= before.drop_last());
            }
        }
        let ghost t = self.view();
        proof {
            if t.len() > 0 {
                assert(t.last() == pending(self.frames@.last()@));
                assert(t.last().len() > 0);
            }
            assert(trim(t) == t);
        }
        if self.frames.len() == 0 {
            return WalkAction::Done;
        }
        let mut top = self.frames.pop().unwrap();
        let entry = top.pop().unwrap();
        let ghost e = entry_view(entry);
        self.frames.push(top);
        proof {
            assert(e == t.last()[0]);
            assert(pending(top@) =~= t.last().drop_first());
            assert(self.view() =~= t.update(t.len() - 1, t.last().drop_first()));
        }
        if entry.is_dir {
            if self.no_traverse {
                WalkAction::Skip(entry.path)
            } else {
                WalkAction::Descend(entry.path)
            }
        } else {
            match path_extension(entry.path.as_str()) {
                None => WalkAction::Skip(entry.path),
                Some(ext) => {
                    let extension = normalize_extension(ext.as_str());
                    let media_type = get_mediatype(extension.clone());
                    let (upper, name) = extract_path_components(
                        entry.path.as_str(),
                        entry.is_file,
                        PATH_LEVELS,
                    );
                    WalkAction::Process(
                        FileTask {
                            path: entry.path,
                            extension,
                            media_type,
                            upper_folders: upper,
                            file_name: name,
                        },
                    )
                },
            }
        }
    }

    /// Decides the next step of the walk, checking `token` for cancellation
    /// before the next entry is visited.
    pub fn next(&mut self, token: &CancellationToken) -> (a: WalkAction)
        ensures
            exists|c: bool|
                step(old(self).view(), old(self).skips_subdirectories(), c, final(self).view(), a),
            final(self).skips_subdirectories() == old(self).skips_subdirectories(),
    {
        let cancelled = token.is_cancelled();
        self.next_with(cancelled)
    }
}

/// A walk whose cancellation was requested before its first step reports
/// cancellation and visits no entry, whatever its root holds.
pub proof fn lemma_cancel_before_start(
    root: Seq<EntryView>,
    no_traverse: bool,
    next: Seq<Seq<EntryView>>,
    a: WalkAction,
)
    requires
        step(seq![root], no_traverse, true, next, a),
    ensures
        a is Cancelled,
        next == seq![root],
{
}

/// A step taken once cancellation was requested visits no entry: it reports
/// cancellation and leaves every pending entry pending.
pub proof fn lemma_cancelled_step_visits_nothing(
    st: Seq<Seq<EntryView>>,
    no_traverse: bool,
    next: Seq<Seq<EntryView>>,
    a: WalkAction,
)
    requires
        step(st, no_traverse, true, next, a),
    ensures
        a is Cancelled,
        next == st,
{
}

/// A file without an extension is skipped: the step that visits it makes no
/// task of it.
pub proof fn lemma_file_without_extension_skipped(
    st: Seq<Seq<EntryView>>,
    no_traverse: bool,
    cancelled: bool,
    next: Seq<Seq<EntryView>>,
    a: WalkAction,
)
    requires
        step(st, no_traverse, cancelled, next, a),
        trim(st).len() > 0,
        !cancelled,
        !trim(st).last()[0].1,
        extension_of(trim(st).last()[0].0) is None,
    ensures
        a is Skip,
{
}

/// Every task that a step hands out is for a file that has an extension.
pub proof fn lemma_tasks_have_extensions(
    st: Seq<Seq<EntryView>>,
    no_traverse: bool,
    cancelled: bool,
    next: Seq<Seq<EntryView>>,
    a: WalkAction,
)
    requires
        step(st, no_traverse, cancelled, next, a),
        a is Process,
    ensures
        extension_of(a->Process_0.path@) is Some,
{
}

} // verus!
