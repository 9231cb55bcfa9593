//! The upload run: a state machine advanced one bounded step per tick.
//!
//! [`UploadPipeline::action`] names the one piece of file or network work the
//! current phase needs; the caller performs it and hands the outcome to
//! [`UploadPipeline::tick`]. Nothing happens between ticks.
use vstd::prelude::*;
use crate::paths::same_text;
use crate::season::season_of;
use crate::session::{UploadSession, image_file_of, uppercase_of};
use crate::text::{all_digits, clean_string, digits_value, parse_decimal, strip_blanks};

verus! {

broadcast use vstd::seq_lib::group_to_multiset_ensures;

/// The port the transfer server listens on.
pub const SERVER_PORT: u64 = 21;

/// The phase of an upload run.
pub enum UploadPhase {
    /// No run in progress.
    Idle,
    /// The session was taken; the next tick prepares the local directory.
    Initializing,
    /// The local directory is being created afresh.
    CreatingDirectory,
    /// The image at this position is being saved.
    SavingImage(usize),
    /// Everything is saved; the run waits for the upload to be confirmed.
    DoneSaving,
    /// The connection to the server is being opened.
    Connecting,
    /// The saved file at this position of the upload order is being sent.
    UploadingImage(usize),
    /// The run is complete.
    Done,
    /// The run stopped; the message says why.
    Error(String),
}

/// The text of the upload form, as entered.
pub struct FormFields {
    pub title: String,
    pub branch: String,
    pub day: String,
    pub month: String,
    /// The last two digits of a year of this century, or the full year.
    pub year: String,
    pub server: String,
    pub username: String,
    pub password: String,
    pub high_definition: bool,
}

/// The work the current phase needs from the caller.
pub enum UploadAction {
    /// Nothing to do until an explicit command.
    Wait,
    /// No outside work: tick to go on.
    Advance,
    /// Delete the directory if it exists, ignoring failure, then create it.
    RecreateDirectory(String),
    /// Save the image at `index` of the collection to `path`; after the last
    /// one, also list the files of `directory`.
    SaveImage { index: usize, path: String, last: bool, directory: String },
    /// Connect to `address` and log in.
    Connect { address: String, username: String, password: String },
    /// If `enter` holds a season and a directory name: change into the
    /// season directory, create the directory, and switch to binary mode.
    /// Then send `file` under its own name; if `close`, end the session.
    Upload { enter: Option<(String, String)>, file: String, close: bool },
}

/// What came of the work an action asked for.
pub enum UploadOutcome {
    /// The tick needed no outside work.
    Proceed,
    DirectoryReady,
    DirectoryFailed,
    Saved,
    /// The last image was saved; these are the files of the directory.
    SavedLast(Vec<String>),
    SaveFailed,
    Connected,
    ConnectFailed,
    LoginFailed,
    SeasonMissing,
    RemoteDirectoryExists,
    Uploaded,
    UploadFailed,
}

/// The state of a run, as plain values.
pub struct PipelineState {
    pub phase: UploadPhase,
    pub session: Option<UploadSession>,
    /// The number of images to save.
    pub count: nat,
    /// The saved files, in the order they are uploaded.
    pub files: Seq<String>,
}

/// The upload run in progress.
pub struct UploadPipeline {
    phase: UploadPhase,
    session: Option<UploadSession>,
    count: usize,
    files: Vec<String>,
}

impl View for UploadPipeline {
    type V = PipelineState;

    closed spec fn view(&self) -> PipelineState {
        PipelineState {
            phase: self.phase,
            session: self.session,
            count: self.count as nat,
            files: self.files@,
        }
    }
}

/// What a run needs in each phase: a session from the start until it ends,
/// an image to save, and a file to upload.
pub open spec fn well_formed(st: PipelineState) -> bool {
    let running = match st.phase {
        UploadPhase::Idle | UploadPhase::Done | UploadPhase::Error(_) => false,
        _ => true,
    };
    &&& running ==> st.session is Some && st.session->0.wf() && st.count > 0
    &&& st.phase matches UploadPhase::SavingImage(i) ==> i < st.count
    &&& (st.phase is DoneSaving || st.phase is Connecting) ==> st.files.len() > 0
    &&& st.phase matches UploadPhase::UploadingImage(i) ==> i < st.files.len()
}

/// The name of the first empty field of the form, in form order. The title
/// and the branch are judged as the session takes them, without blanks.
pub open spec fn first_missing(form: FormFields) -> Option<Seq<char>> {
    if strip_blanks(form.title@).len() == 0 {
        Some("title"@)
    } else if strip_blanks(form.branch@).len() == 0 {
        Some("branch"@)
    } else if form.day@.len() == 0 {
        Some("day"@)
    } else if form.month@.len() == 0 {
        Some("month"@)
    } else if form.year@.len() == 0 {
        Some("year"@)
    } else if form.server@.len() == 0 {
        Some("server"@)
    } else if form.username@.len() == 0 {
        Some("username"@)
    } else if form.password@.len() == 0 {
        Some("password"@)
    } else {
        None
    }
}

/// The number a form field holds: its digits' value, or zero when it holds
/// anything else or a value too large for a `u64` below its maximum.
pub open spec fn number_of(s: Seq<char>) -> nat {
    if all_digits(s) && digits_value(s) < u64::MAX {
        digits_value(s)
    } else {
        0
    }
}

/// The year a year field stands for: below a hundred, the last two digits of
/// a year of this century; otherwise the full year.
pub open spec fn year_of(v: nat) -> nat {
    if v < 100 {
        2000 + v
    } else {
        v
    }
}

/// The session a complete form gives.
pub open spec fn session_of(form: FormFields, s: UploadSession) -> bool {
    &&& s.title@ == strip_blanks(form.title@)
    &&& s.branch_code@ == uppercase_of(strip_blanks(form.branch@))
    &&& s.day == number_of(form.day@)
    &&& s.month == number_of(form.month@)
    &&& s.year == year_of(number_of(form.year@))
    &&& s.server@ == form.server@
    &&& s.username@ == form.username@
    &&& s.password@ == form.password@
    &&& s.high_definition == form.high_definition
}

/// The message for a field left empty.
pub open spec fn missing_message(field: Seq<char>) -> Seq<char> {
    "field "@ + field + " not filled"@
}

/// The message when the local directory cannot be created.
pub open spec fn create_message(dir: Seq<char>) -> Seq<char> {
    "cannot create folder `"@ + dir + "`"@
}

/// The message when a run is started with no image to save.
pub open spec fn empty_message() -> Seq<char> {
    "no images to save"@
}

/// The message when an image cannot be saved.
pub open spec fn save_message() -> Seq<char> {
    "cannot save images"@
}

/// The message when the server cannot be reached.
pub open spec fn connect_message(server: Seq<char>) -> Seq<char> {
    "cannot connect to `"@ + server + "`"@
}

/// The message when the server refuses the login.
pub open spec fn login_message(server: Seq<char>, user: Seq<char>) -> Seq<char> {
    "cannot authenticate on `"@ + server + "` as `"@ + user + "`"@
}

/// The message when the season directory is missing on the server.
pub open spec fn season_message(season: Seq<char>) -> Seq<char> {
    "remote folder `"@ + season + "` missing"@
}

/// The message when the session's directory already exists on the server.
pub open spec fn exists_message(dir: Seq<char>) -> Seq<char> {
    "remote folder `"@ + dir + "` already exists"@
}

/// The message when a file cannot be sent.
pub open spec fn upload_message(file: Seq<char>) -> Seq<char> {
    "cannot upload `"@ + file + "`"@
}

/// Whether `phase` is the error phase with `message`.
pub open spec fn is_error(phase: UploadPhase, message: Seq<char>) -> bool {
    phase matches UploadPhase::Error(m) && m@ == message
}

/// Whether the directory listing shows the file at `path`.
pub open spec fn listed(listing: Seq<String>, path: Seq<char>) -> bool {
    exists|j: int| 0 <= j < listing.len() && (#[trigger] listing[j])@ == path
}

/// The numbers of the saved files, from `n` down to one, that the listing
/// of the directory `dir` shows: the reverse of the order of saving.
pub open spec fn listed_numbers(dir: Seq<char>, n: nat, listing: Seq<String>) -> Seq<nat>
    decreases n,
{
    if n == 0 {
        Seq::empty()
    } else {
        let rest = listed_numbers(dir, (n - 1) as nat, listing);
        if listed(listing, image_file_of(dir, n)) {
            seq![n] + rest
        } else {
            rest
        }
    }
}

/// `files` are the saved files of `dir` that `listing` shows, numbered
/// `numbers`, in that order.
pub open spec fn files_numbered(dir: Seq<char>, numbers: Seq<nat>, files: Seq<String>) -> bool {
    &&& files.len() == numbers.len()
    &&& forall|k: int| 0 <= k < files.len() ==> (#[trigger] files[k])@ == image_file_of(dir, numbers[k])
}

/// `after` is `before` with the phase replaced by `phase`.
pub open spec fn moved_to(before: PipelineState, after: PipelineState, phase: UploadPhase) -> bool {
    after == PipelineState { phase, ..before }
}

/// `after` is `before` stopped with `message`.
pub open spec fn stopped(before: PipelineState, after: PipelineState, message: Seq<char>) -> bool {
    &&& is_error(after.phase, message)
    &&& after.session == before.session
    &&& after.count == before.count
    &&& after.files == before.files
}

/// One tick with `outcome`: how `after` follows from `before`. An outcome
/// that does not answer the phase's action leaves the state as it is, and
/// the phases that wait for a command stay as they are.
pub open spec fn stepped(before: PipelineState, outcome: UploadOutcome, after: PipelineState) -> bool {
    let s = before.session->0;
    let dir = s.directory_spec();
    match before.phase {
        UploadPhase::Initializing => moved_to(before, after, UploadPhase::CreatingDirectory),
        UploadPhase::CreatingDirectory => match outcome {
            UploadOutcome::DirectoryReady => moved_to(before, after, UploadPhase::SavingImage(0)),
            UploadOutcome::DirectoryFailed => stopped(before, after, create_message(dir)),
            _ => after == before,
        },
        UploadPhase::SavingImage(i) => match outcome {
            UploadOutcome::Saved => if i + 1 < before.count {
                moved_to(before, after, UploadPhase::SavingImage((i + 1) as usize))
            } else {
                after == before
            },
            UploadOutcome::SavedLast(listing) => if i + 1 == before.count {
                let numbers = listed_numbers(dir, before.count, listing@);
                if numbers.len() == 0 {
                    stopped(before, after, save_message())
                } else {
                    &&& after.phase is DoneSaving
                    &&& after.session == before.session
                    &&& after.count == before.count
                    &&& files_numbered(dir, numbers, after.files)
                }
            } else {
                after == before
            },
            UploadOutcome::SaveFailed => stopped(before, after, save_message()),
            _ => after == before,
        },
        UploadPhase::Connecting => match outcome {
            UploadOutcome::Connected => moved_to(before, after, UploadPhase::UploadingImage(0)),
            UploadOutcome::ConnectFailed => stopped(before, after, connect_message(s.server@)),
            UploadOutcome::LoginFailed => stopped(
                before,
                after,
                login_message(s.server@, s.username@),
            ),
            _ => after == before,
        },
        UploadPhase::UploadingImage(i) => match outcome {
            UploadOutcome::Uploaded => if i + 1 < before.files.len() {
                moved_to(before, after, UploadPhase::UploadingImage((i + 1) as usize))
            } else {
                moved_to(before, after, UploadPhase::Done)
            },
            UploadOutcome::SeasonMissing => if i == 0 {
                stopped(before, after, season_message(season_of(s.month as nat, s.year as nat)))
            } else {
                after == before
            },
            UploadOutcome::RemoteDirectoryExists => if i == 0 {
                stopped(before, after, exists_message(dir))
            } else {
                after == before
            },
            UploadOutcome::UploadFailed => stopped(before, after, upload_message(before.files[i as int]@)),
            _ => after == before,
        },
        _ => after == before,
    }
}

/// `prefix` followed by `middle` and `suffix`.
fn framed(prefix: &str, middle: &str, suffix: &str) -> (r: String)
    ensures
        r@ == prefix@ + middle@ + suffix@,
{
    let mut r = String::from_str(prefix);
    r.append(middle);
    r.append(suffix);
    r
}

impl UploadPipeline {
    /// A pipeline with no run in progress.
    pub fn new() -> (r: UploadPipeline)
        ensures
            r.wf(),
            r@.phase is Idle,
            r@.session is None,
    {
        UploadPipeline { phase: UploadPhase::Idle, session: None, count: 0, files: Vec::new() }
    }

    /// Whether the state is consistent; every reachable state is.
    pub closed spec fn wf(&self) -> bool {
        well_formed(self@)
    }

    /// The current phase.
    pub fn phase(&self) -> (r: &UploadPhase)
        ensures
            *r == self@.phase,
    {
        &self.phase
    }

    /// The session of the run, if one is in progress.
    pub fn session(&self) -> (r: &Option<UploadSession>)
        ensures
            *r == self@.session,
    {
        &self.session
    }

    /// The saved files, in upload order, once saving is done.
    pub fn files(&self) -> (r: &Vec<String>)
        ensures
            r@ == self@.files,
    {
        &self.files
    }

    /// Starts a run for a collection of `image_count` images, from the form.
    /// A form with an empty field, or a collection with no image, stops the
    /// run before anything is touched. Outside the idle phase, nothing
    /// changes.
    pub fn start(&mut self, form: &FormFields, image_count: usize)
        requires
            old(self).wf(),
        ensures
            final(self).wf(),
            !(old(self)@.phase is Idle) ==> final(self)@ == old(self)@,
            old(self)@.phase is Idle ==> match first_missing(*form) {
                Some(field) => is_error(final(self)@.phase, missing_message(field))
                    && final(self)@.session is None,
                None => if image_count == 0 {
                    is_error(final(self)@.phase, empty_message()) && final(self)@.session is None
                } else {
                    &&& final(self)@.phase is Initializing
                    &&& final(self)@.session matches Some(s) && session_of(*form, s)
                    &&& final(self)@.count == image_count
                },
            },
    {
        match self.phase {
            UploadPhase::Idle => {},
            _ => {
                return;
            },
        }
        let missing = if clean_string(form.title.as_str()).unicode_len() == 0 {
            Some("title")
        } else if clean_string(form.branch.as_str()).unicode_len() == 0 {
            Some("branch")
        } else if form.day.unicode_len() == 0 {
            Some("day")
        } else if form.month.unicode_len() == 0 {
            Some("month")
        } else if form.year.unicode_len() == 0 {
            Some("year")
        } else if form.server.unicode_len() == 0 {
            Some("server")
        } else if form.username.unicode_len() == 0 {
            Some("username")
        } else if form.password.unicode_len() == 0 {
            Some("password")
        } else {
            None
        };
        match missing {
            Some(field) => {
                self.phase = UploadPhase::Error(framed("field ", field, " not filled"));
                self.session = None;
            },
            None => {
                if image_count == 0 {
                    self.phase = UploadPhase::Error(String::from_str("no images to save"));
                    self.session = None;
                    return;
                }
                let day = number_or_zero(form.day.as_str());
                let month = number_or_zero(form.month.as_str());
                let y = number_or_zero(form.year.as_str());
                let year = if y < 100 {
                    2000 + y
                } else {
                    y
                };
                let session = UploadSession::new(
                    form.title.as_str(),
                    form.branch.as_str(),
                    day,
                    month,
                    year,
                    form.server.as_str(),
                    form.username.as_str(),
                    form.password.as_str(),
                    form.high_definition,
                );
                self.session = Some(session);
                self.count = image_count;
                self.phase = UploadPhase::Initializing;
            },
        }
    }

    /// The work the current phase needs from the caller.
    pub fn action(&self) -> (r: UploadAction)
        requires
            self.wf(),
        ensures
            ({
                let st = self@;
                let s = st.session->0;
                let dir = s.directory_spec();
                match st.phase {
                    UploadPhase::Initializing => r is Advance,
                    UploadPhase::CreatingDirectory => r matches UploadAction::RecreateDirectory(d)
                        && d@ == dir,
                    UploadPhase::SavingImage(i) => r matches UploadAction::SaveImage {
                        index,
                        path,
                        last,
                        directory,
                    } && index == i && path@ == crate::session::image_file_of(dir, i as nat + 1) && last
                        == (i + 1 == st.count) && directory@ == dir,
                    UploadPhase::Connecting => r matches UploadAction::Connect {
                        address,
                        username,
                        password,
                    } && address@ == s.server@ + ":21"@ && username@ == s.username@ && password@
                        == s.password@,
                    UploadPhase::UploadingImage(i) => r matches UploadAction::Upload {
                        enter,
                        file,
                        close,
                    } && file == st.files[i as int] && close == (i + 1 == st.files.len()) && (if i
                        == 0 {
                        enter matches Some(e) && e.0@ == season_of(s.month as nat, s.year as nat)
                            && e.1@ == dir
                    } else {
                        enter is None
                    }),
                    _ => r is Wait,
                }
            }),
    {
        match self.phase {
            UploadPhase::Initializing => UploadAction::Advance,
            UploadPhase::CreatingDirectory => {
                let s = self.session.as_ref().unwrap();
                UploadAction::RecreateDirectory(s.local_directory_name())
            },
            UploadPhase::SavingImage(i) => {
                let s = self.session.as_ref().unwrap();
                UploadAction::SaveImage {
                    index: i,
                    path: s.image_file_path(i),
                    last: i + 1 == self.count,
                    directory: s.local_directory_name(),
                }
            },
            UploadPhase::Connecting => {
                let s = self.session.as_ref().unwrap();
                let mut address = s.server.clone();
                address.append(":21");
                UploadAction::Connect {
                    address,
                    username: s.username.clone(),
                    password: s.password.clone(),
                }
            },
            UploadPhase::UploadingImage(i) => {
                let s = self.session.as_ref().unwrap();
                let enter = if i == 0 {
                    Some((s.season_directory(), s.local_directory_name()))
                } else {
                    None
                };
                UploadAction::Upload {
                    enter,
                    file: self.files[i].clone(),
                    close: i == self.files.len() - 1,
                }
            },
            _ => UploadAction::Wait,
        }
    }

    /// Advances the run by one step with the outcome of the current action.
    pub fn tick(&mut self, outcome: UploadOutcome)
        requires
            old(self).wf(),
        ensures
            final(self).wf(),
            stepped(old(self)@, outcome, final(self)@),
    {
        match self.phase {
            UploadPhase::Initializing => {
                self.phase = UploadPhase::CreatingDirectory;
            },
            UploadPhase::CreatingDirectory => match outcome {
                UploadOutcome::DirectoryReady => {
                    self.phase = UploadPhase::SavingImage(0);
                },
                UploadOutcome::DirectoryFailed => {
                    let dir = self.session.as_ref().unwrap().local_directory_name();
                    self.phase = UploadPhase::Error(
                        framed("cannot create folder `", dir.as_str(), "`"),
                    );
                },
                _ => {},
            },
            UploadPhase::SavingImage(i) => match outcome {
                UploadOutcome::Saved => {
                    if i + 1 < self.count {
                        self.phase = UploadPhase::SavingImage(i + 1);
                    }
                },
                UploadOutcome::SavedLast(listing) => {
                    if i + 1 == self.count {
                        let files = saved_files_listed(
                            self.session.as_ref().unwrap(),
                            self.count,
                            &listing,
                        );
                        if files.len() == 0 {
                            self.phase = UploadPhase::Error(String::from_str("cannot save images"));
                        } else {
                            self.files = files;
                            self.phase = UploadPhase::DoneSaving;
                        }
                    }
                },
                UploadOutcome::SaveFailed => {
                    self.phase = UploadPhase::Error(String::from_str("cannot save images"));
                },
                _ => {},
            },
            UploadPhase::Connecting => match outcome {
                UploadOutcome::Connected => {
                    self.phase = UploadPhase::UploadingImage(0);
                },
                UploadOutcome::ConnectFailed => {
                    let s = self.session.as_ref().unwrap();
                    self.phase = UploadPhase::Error(
                        framed("cannot connect to `", s.server.as_str(), "`"),
                    );
                },
                UploadOutcome::LoginFailed => {
                    let s = self.session.as_ref().unwrap();
                    let mut m = framed("cannot authenticate on `", s.server.as_str(), "` as `");
                    m.append(s.username.as_str());
                    m.append("`");
                    self.phase = UploadPhase::Error(m);
                },
                _ => {},
            },
            UploadPhase::UploadingImage(i) => match outcome {
                UploadOutcome::Uploaded => {
                    if i < self.files.len() - 1 {
                        self.phase = UploadPhase::UploadingImage(i + 1);
                    } else {
                        self.phase = UploadPhase::Done;
                    }
                },
                UploadOutcome::SeasonMissing => {
                    if i == 0 {
                        let season = self.session.as_ref().unwrap().season_directory();
                        self.phase = UploadPhase::Error(
                            framed("remote folder `", season.as_str(), "` missing"),
                        );
                    }
                },
                UploadOutcome::RemoteDirectoryExists => {
                    if i == 0 {
                        let dir = self.session.as_ref().unwrap().local_directory_name();
                        self.phase = UploadPhase::Error(
                            framed("remote folder `", dir.as_str(), "` already exists"),
                        );
                    }
                },
                UploadOutcome::UploadFailed => {
                    let m = framed("cannot upload `", self.files[i].as_str(), "`");
                    self.phase = UploadPhase::Error(m);
                },
                _ => {},
            },
            _ => {},
        }
    }

    /// Confirms the upload once saving is done: the only way from
    /// `DoneSaving` to `Connecting`. In any other phase, nothing changes.
    pub fn confirm_upload(&mut self)
        requires
            old(self).wf(),
        ensures
            final(self).wf(),
            old(self)@.phase is DoneSaving ==> moved_to(old(self)@, final(self)@, UploadPhase::Connecting),
            !(old(self)@.phase is DoneSaving) ==> final(self)@ == old(self)@,
    {
        match self.phase {
            UploadPhase::DoneSaving => {
                self.phase = UploadPhase::Connecting;
            },
            _ => {},
        }
    }

    /// Ends a stopped or finished run: the session is dropped and the
    /// pipeline is idle again. Files already saved are left as they are. In
    /// any other phase, nothing changes.
    pub fn reset(&mut self)
        requires
            old(self).wf(),
        ensures
            final(self).wf(),
            (old(self)@.phase is Error || old(self)@.phase is Done) ==> final(self)@.phase is Idle
                && final(self)@.session is None,
            !(old(self)@.phase is Error || old(self)@.phase is Done) ==> final(self)@ == old(self)@,
    {
        match self.phase {
            UploadPhase::Error(_) | UploadPhase::Done => {
                self.phase = UploadPhase::Idle;
                self.session = None;
                self.count = 0;
                self.files = Vec::new();
            },
            _ => {},
        }
    }
}

/// The number a form field holds, or zero.
fn number_or_zero(s: &str) -> (r: u64)
    ensures
        r == number_of(s@),
{
    match parse_decimal(s) {
        Some(v) => if v < u64::MAX {
            v
        } else {
            0
        },
        None => 0,
    }
}

/// Whether the listing shows the file at `path`.
fn listing_contains(listing: &Vec<String>, path: &str) -> (r: bool)
    ensures
        r == listed(listing@, path@),
{
    let mut j: usize = 0;
    while j < listing.len()
        invariant
            j <= listing.len(),
            forall|k: int| 0 <= k < j ==> (#[trigger] listing@[k])@ != path@,
        decreases listing.len() - j,
    {
        if same_text(listing[j].as_str(), path) {
            return true;
        }
        j = j + 1;
    }
    false
}

/// The saved files of the session's `count` images that the listing shows,
/// from the last saved to the first.
fn saved_files_listed(s: &UploadSession, count: usize, listing: &Vec<String>) -> (r: Vec<String>)
    ensures
        files_numbered(s.directory_spec(), listed_numbers(s.directory_spec(), count as nat, listing@), r@),
{
    let ghost dir = s.directory_spec();
    let mut files: Vec<String> = Vec::new();
    let ghost mut got: Seq<nat> = Seq::empty();
    let mut i: usize = count;
    while i > 0
        invariant
            i <= count,
            got + listed_numbers(dir, i as nat, listing@) == listed_numbers(dir, count as nat, listing@),
            files_numbered(dir, got, files@),
            dir == s.directory_spec(),
        decreases i,
    {
        let path = s.image_file_path(i - 1);
        let ghost before = got;
        if listing_contains(listing, path.as_str()) {
            files.push(path);
            proof {
                got = got.push(i as nat);
                assert(got + listed_numbers(dir, (i - 1) as nat, listing@) =~= before + listed_numbers(
                    dir,
                    i as nat,
                    listing@,
                ));
            }
        }
        i = i - 1;
    }
    assert(got + listed_numbers(dir, 0, listing@) =~= got);
    files
}

/// When every saved file shows in the listing, the files are uploaded in the
/// reverse of the order of saving: the file numbered `count` first, the file
/// numbered one last.
pub proof fn lemma_upload_reverses_save_order(dir: Seq<char>, count: nat, listing: Seq<String>)
    requires
        forall|n: nat| 1 <= n <= count ==> listed(listing, #[trigger] image_file_of(dir, n)),
    ensures
        listed_numbers(dir, count, listing) == Seq::new(count, |k: int| (count - k) as nat),
    decreases count,
{
    if count > 0 {
        assert(listed(listing, image_file_of(dir, count)));
        lemma_upload_reverses_save_order(dir, (count - 1) as nat, listing);
        assert(listed_numbers(dir, count, listing) =~= Seq::new(count, |k: int| (count - k) as nat));
    } else {
        assert(listed_numbers(dir, count, listing) =~= Seq::new(count, |k: int| (count - k) as nat));
    }
}


/// Once saving is done, the run waits for confirmation: however many ticks
/// follow, with whatever outcomes, the state stays as it is, so it never
/// reaches `Connecting` but through `confirm_upload`.
pub proof fn lemma_done_saving_waits(states: Seq<PipelineState>, outcomes: Seq<UploadOutcome>)
    requires
        states.len() == outcomes.len() + 1,
        states[0].phase is DoneSaving,
        forall|k: int|
            0 <= k < outcomes.len() ==> stepped(states[k], #[trigger] outcomes[k], states[k + 1]),
    ensures
        forall|k: int| 0 <= k < states.len() ==> #[trigger] states[k] == states[0],
{
    lemma_done_saving_waits_prefix(states, outcomes, states.len() as nat);
}

proof fn lemma_done_saving_waits_prefix(
    states: Seq<PipelineState>,
    outcomes: Seq<UploadOutcome>,
    n: nat,
)
    requires
        states.len() == outcomes.len() + 1,
        n <= states.len(),
        states[0].phase is DoneSaving,
        forall|k: int|
            0 <= k < outcomes.len() ==> stepped(states[k], #[trigger] outcomes[k], states[k + 1]),
    ensures
        forall|k: int| 0 <= k < n ==> #[trigger] states[k] == states[0],
    decreases n,
{
    if n > 1 {
        lemma_done_saving_waits_prefix(states, outcomes, (n - 1) as nat);
        let k = n - 2;
        assert(stepped(states[k], outcomes[k], states[k + 1]));
        assert(states[k] == states[0]);
    }
}

} // verus!
