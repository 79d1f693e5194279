//! The synchronization run: which outside work comes next, and what its
//! result means for the run.
//!
//! A run walks its sources in the order given. For each it asks for a
//! resolution, holds the resolved watermark against the stored one, asks for
//! an installation when they differ, and records the new watermark once the
//! installation is done. Only when every source is through does it ask for
//! the store to be saved. The first failure ends the run, and then nothing is
//! saved. A source is an argument of the command line as it came, and is
//! read as text only when the run turns to it.
//!
//! The run does no outside work itself. It hands out a [`Progress`], whose
//! variant says what is to be done, and is carried on by the one transition
//! that the variant's state offers.

use crate::descriptor::{parse_argument, parsed_argument, Descriptor, DescriptorView};
use crate::error::SyncError;
use crate::github::{
    compare, descriptor_strategy, pending, resolution, resolve, select_strategy, Request,
    Response, ResponseView, Strategy, StrategyView, VersionInfo, VersionView,
};
use crate::store::{document_text, loaded, WatermarkStore};
use crate::paths::byte_views;
use vstd::prelude::*;
use vstd::string::*;

verus! {

/// What a run carries from source to source.
struct Run {
    store: WatermarkStore,
    sources: Vec<Vec<u8>>,
    cursor: usize,
}

/// The mathematical value of a [`Run`]: the store as it stands, the sources
/// as given, and how many of them are through.
pub struct RunView {
    pub store: Map<Seq<char>, Seq<char>>,
    pub sources: Seq<Seq<u8>>,
    pub cursor: nat,
}

impl View for Run {
    type V = RunView;

    closed spec fn view(&self) -> RunView {
        RunView {
            store: self.store@,
            sources: byte_views(self.sources@),
            cursor: self.cursor as nat,
        }
    }
}

impl RunView {
    /// The run with its current source through and the store as it is.
    pub open spec fn passed(self) -> RunView {
        RunView { cursor: self.cursor + 1, ..self }
    }

    /// The run with its current source through and `watermark` stored for
    /// `key`.
    pub open spec fn recorded(self, key: Seq<char>, watermark: Seq<char>) -> RunView {
        RunView { store: self.store.insert(key, watermark), cursor: self.cursor + 1, ..self }
    }
}

/// The watermark that a store holds for a key, if any.
pub open spec fn stored(store: Map<Seq<char>, Seq<char>>, key: Seq<char>) -> Option<Seq<char>> {
    if store.contains_key(key) {
        Some(store[key])
    } else {
        None
    }
}

/// A run that waits for the resolution of its current source.
pub struct AwaitingResolution {
    run: Run,
    descriptor: Descriptor,
    strategy: Strategy,
}

/// A run that waits for the installation of a changed source.
pub struct AwaitingInstall {
    run: Run,
    descriptor: Descriptor,
    version: VersionInfo,
}

/// A run whose sources are all through and whose store waits to be saved.
pub struct AwaitingSave {
    store: WatermarkStore,
}

/// What a run asks for next.
pub enum Progress {
    /// Query the platform as the state's strategy says, then call
    /// [`AwaitingResolution::resolved`] with the answer.
    Resolve(AwaitingResolution),
    /// Download and install the state's version, then call
    /// [`AwaitingInstall::installed`].
    Install(AwaitingInstall),
    /// Write the state's document in place of the state file. The run is
    /// then done.
    Save(AwaitingSave),
    /// The run has failed. Nothing is to be saved.
    Failed(SyncError),
}

/// The mathematical value of an [`AwaitingResolution`].
pub struct ResolutionView {
    pub run: RunView,
    pub descriptor: DescriptorView,
    pub strategy: StrategyView,
}

/// The mathematical value of an [`AwaitingInstall`].
pub struct InstallView {
    pub run: RunView,
    pub descriptor: DescriptorView,
    pub version: VersionView,
}

/// The mathematical value of a [`Progress`].
pub enum ProgressView {
    Resolve(ResolutionView),
    Install(InstallView),
    Save(Map<Seq<char>, Seq<char>>),
    Failed(SyncError),
}

impl ResolutionView {
    /// The state belongs to a source of its run: the descriptor is what that
    /// source parses to, and the strategy is the one the descriptor calls for.
    pub open spec fn well_formed(self) -> bool {
        &&& self.run.cursor < self.run.sources.len()
        &&& parsed_argument(self.run.sources[self.run.cursor as int]) == Ok::<
            DescriptorView,
            SyncError,
        >(self.descriptor)
        &&& descriptor_strategy(self.descriptor) == Ok::<StrategyView, SyncError>(self.strategy)
    }
}

impl InstallView {
    /// The state belongs to a source of its run: the descriptor is what that
    /// source parses to.
    pub open spec fn well_formed(self) -> bool {
        &&& self.run.cursor < self.run.sources.len()
        &&& parsed_argument(self.run.sources[self.run.cursor as int]) == Ok::<
            DescriptorView,
            SyncError,
        >(self.descriptor)
    }
}

impl ProgressView {
    /// Each waiting state belongs to a source of its run.
    pub open spec fn well_formed(self) -> bool {
        match self {
            ProgressView::Resolve(w) => w.well_formed(),
            ProgressView::Install(w) => w.well_formed(),
            _ => true,
        }
    }

    /// A bound on the transitions that the run still has before it.
    pub open spec fn distance(self) -> nat {
        match self {
            ProgressView::Resolve(w) => (2 * (w.run.sources.len() - w.run.cursor)) as nat,
            ProgressView::Install(w) => (2 * (w.run.sources.len() - w.run.cursor) - 1) as nat,
            _ => 0,
        }
    }
}

impl View for AwaitingResolution {
    type V = ResolutionView;

    closed spec fn view(&self) -> ResolutionView {
        ResolutionView { run: self.run@, descriptor: self.descriptor@, strategy: self.strategy@ }
    }
}

impl View for AwaitingInstall {
    type V = InstallView;

    closed spec fn view(&self) -> InstallView {
        InstallView { run: self.run@, descriptor: self.descriptor@, version: self.version@ }
    }
}

impl View for AwaitingSave {
    type V = Map<Seq<char>, Seq<char>>;

    closed spec fn view(&self) -> Map<Seq<char>, Seq<char>> {
        self.store@
    }
}

impl View for Progress {
    type V = ProgressView;

    open spec fn view(&self) -> ProgressView {
        match self {
            Progress::Resolve(w) => ProgressView::Resolve(w@),
            Progress::Install(w) => ProgressView::Install(w@),
            Progress::Save(w) => ProgressView::Save(w@),
            Progress::Failed(e) => ProgressView::Failed(*e),
        }
    }
}

/// What a run asks for when it turns to its current source: the store is to
/// be saved when no source is left; the run fails when the source cannot be
/// parsed or calls for no known strategy; else the source is to be resolved.
pub open spec fn advance(run: RunView) -> ProgressView {
    if run.cursor >= run.sources.len() {
        ProgressView::Save(run.store)
    } else {
        match parsed_argument(run.sources[run.cursor as int]) {
            Err(e) => ProgressView::Failed(e),
            Ok(descriptor) => match descriptor_strategy(descriptor) {
                Err(e) => ProgressView::Failed(e),
                Ok(strategy) => ProgressView::Resolve(
                    ResolutionView { run, descriptor, strategy },
                ),
            },
        }
    }
}

/// What a run asks for first: the store is read from the state document, or
/// starts empty where `clear` is set, and the run turns to its first source.
pub open spec fn begin_spec(
    document: Option<Seq<char>>,
    clear: bool,
    sources: Seq<Seq<u8>>,
) -> ProgressView {
    advance(
        RunView {
            store: if clear {
                Map::empty()
            } else {
                loaded(document)
            },
            sources,
            cursor: 0,
        },
    )
}

/// What a run asks for once its current source is resolved: it fails where
/// the answer is an error; it turns to the next source, the store untouched,
/// where nothing is published or the stored watermark is the resolved one;
/// else the resolved version is to be installed.
pub open spec fn after_resolution(w: ResolutionView, response: ResponseView) -> ProgressView {
    match resolution(w.strategy, response) {
        Err(e) => ProgressView::Failed(e),
        Ok(resolved) => match pending(stored(w.run.store, w.descriptor.canonical()), resolved) {
            None => advance(w.run.passed()),
            Some(version) => ProgressView::Install(
                InstallView { run: w.run, descriptor: w.descriptor, version },
            ),
        },
    }
}

/// What a run asks for once a version is installed: the version's watermark
/// is stored under the canonical descriptor, and the run turns to the next
/// source.
pub open spec fn after_install(w: InstallView) -> ProgressView {
    advance(w.run.recorded(w.descriptor.canonical(), w.version.watermark))
}

/// The block that tells the user of a change: a header line that names the
/// source and its new watermark, the note if there is one, and an empty line.
pub open spec fn announcement_text(descriptor: DescriptorView, version: VersionView) -> Seq<char> {
    "# "@ + descriptor.canonical() + ": "@ + version.watermark + "\n"@ + match version.body {
        Some(note) => note + "\n"@,
        None => Seq::empty(),
    } + "\n"@
}

impl Run {
    /// Turns to the current source.
    fn advance(self) -> (p: Progress)
        ensures
            p@ == advance(self@),
            p@.well_formed(),
    {
        let run = self;
        if run.cursor >= run.sources.len() {
            return Progress::Save(AwaitingSave { store: run.store });
        }
        assert(byte_views(run.sources@)[run.cursor as int] == run.sources@[run.cursor as int]@);
        let descriptor: Descriptor = match parse_argument(&run.sources[run.cursor]) {
            Ok(descriptor) => descriptor,
            Err(e) => {
                return Progress::Failed(e);
            },
        };
        match select_strategy(&descriptor) {
            Ok(strategy) => Progress::Resolve(AwaitingResolution { run, descriptor, strategy }),
            Err(e) => Progress::Failed(e),
        }
    }
}

/// Starts a run over `sources`, the arguments that name them, in their
/// order. `document` is the text of the
/// state file, or `None` where there is no such file; with `clear` set the
/// run starts from the empty store whatever the document says, so that every
/// source counts as changed.
pub fn begin(document: Option<&str>, clear: bool, sources: Vec<Vec<u8>>) -> (p: Progress)
    ensures
        p@ == begin_spec(
            match document {
                Some(text) => Some(text@),
                None => None,
            },
            clear,
            byte_views(sources@),
        ),
        p@.well_formed(),
{
    let mut store = WatermarkStore::load(document);
    if clear {
        store.clear();
    }
    let run = Run { store, sources, cursor: 0 };
    run.advance()
}

impl AwaitingResolution {
    #[verifier::type_invariant]
    closed spec fn belongs_to_run(&self) -> bool {
        self@.well_formed()
    }

    /// The source that is being resolved.
    pub fn descriptor(&self) -> (d: &Descriptor)
        ensures
            d@ == self@.descriptor,
    {
        &self.descriptor
    }

    /// The strategy by which the source is resolved.
    pub fn strategy(&self) -> (s: &Strategy)
        ensures
            s@ == self@.strategy,
    {
        &self.strategy
    }

    /// The request to make for the source: where it goes, and the headers it
    /// must carry.
    pub fn request(&self) -> (r: Request)
        ensures
            r@ == self@.strategy.request(),
    {
        self.strategy.request()
    }

    /// The watermark that is stored for the source, if any.
    pub fn current_watermark(&self) -> (w: Option<&String>)
        ensures
            match w {
                Some(text) => Some(text@),
                None => None,
            } == stored(self@.run.store, self@.descriptor.canonical()),
    {
        let key: String = self.descriptor.canonical();
        self.run.store.get(key.as_str())
    }

    /// Carries the run on with the platform's answer.
    pub fn resolved(self, response: Response) -> (p: Progress)
        ensures
            p@ == after_resolution(self@, response@),
            p@.well_formed(),
    {
        proof {
            use_type_invariant(&self);
        }
        let AwaitingResolution { run, descriptor, strategy } = self;
        let count: usize = run.sources.len();
        assert(run.cursor < count) by {
            assert(byte_views(run.sources@).len() == count);
        }
        match resolve(&strategy, response) {
            Err(e) => Progress::Failed(e),
            Ok(resolved) => {
                let key: String = descriptor.canonical();
                match compare(run.store.get(key.as_str()), resolved) {
                    None => {
                        let next = Run {
                            store: run.store,
                            sources: run.sources,
                            cursor: run.cursor + 1,
                        };
                        next.advance()
                    },
                    Some(version) => Progress::Install(
                        AwaitingInstall { run, descriptor, version },
                    ),
                }
            },
        }
    }
}

impl AwaitingInstall {
    #[verifier::type_invariant]
    closed spec fn belongs_to_run(&self) -> bool {
        self@.well_formed()
    }

    /// The source that changed.
    pub fn descriptor(&self) -> (d: &Descriptor)
        ensures
            d@ == self@.descriptor,
    {
        &self.descriptor
    }

    /// The version to install.
    pub fn version(&self) -> (v: &VersionInfo)
        ensures
            v@ == self@.version,
    {
        &self.version
    }

    /// The block to show the user once the installation is done.
    pub fn announcement(&self) -> (text: String)
        ensures
            text@ == announcement_text(self@.descriptor, self@.version),
    {
        let key: String = self.descriptor.canonical();
        let mut text: String = String::from_str("# ");
        text.append(key.as_str());
        text.append(": ");
        text.append(self.version.watermark.as_str());
        text.append("\n");
        match &self.version.body {
            Some(note) => {
                text.append(note.as_str());
                text.append("\n");
            },
            None => {
                assert(text@ + Seq::<char>::empty() =~= text@);
            },
        }
        text.append("\n");
        text
    }

    /// Carries the run on once the version is installed.
    pub fn installed(self) -> (p: Progress)
        ensures
            p@ == after_install(self@),
            p@.well_formed(),
    {
        proof {
            use_type_invariant(&self);
        }
        let AwaitingInstall { run, descriptor, version } = self;
        let count: usize = run.sources.len();
        assert(run.cursor < count) by {
            assert(byte_views(run.sources@).len() == count);
        }
        let key: String = descriptor.canonical();
        let mut store = run.store;
        store.insert(key, version.watermark);
        let next = Run { store, sources: run.sources, cursor: run.cursor + 1 };
        next.advance()
    }
}

impl AwaitingSave {
    /// The document to write in place of the state file: that of the store
    /// as the run leaves it. The result is always `Ok`.
    pub fn document(&self) -> (r: Result<String, SyncError>)
        ensures
            r matches Ok(text) && text@ == document_text(self@),
    {
        self.store.render()
    }

    /// The watermark that the run leaves for `key`, if any.
    pub fn watermark(&self, key: &str) -> (w: Option<&String>)
        ensures
            match w {
                Some(text) => Some(text@),
                None => None,
            } == stored(self@, key@),
    {
        self.store.get(key)
    }
}

} // verus!
