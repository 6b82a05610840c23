//! Finding `cloudflared`, or fetching it.

use vstd::prelude::*;

use crate::ansi;
use crate::archive;
use crate::archive::{ExtractError, ExtractFailure};
use crate::files;
use crate::files::FileInfo;
use crate::text;

verus! {

// ---- Finding it ----

/// The name of the program.
pub open spec fn bin_name(windows: bool) -> Seq<char> {
    if windows {
        "cloudflared.exe"@
    } else {
        "cloudflared"@
    }
}

fn name_of(windows: bool) -> (r: &'static str)
    ensures
        r@ == bin_name(windows),
{
    if windows {
        "cloudflared.exe"
    } else {
        "cloudflared"
    }
}

/// Where the program is kept once it was fetched.
pub open spec fn managed_path(home: Seq<char>, windows: bool) -> Seq<char> {
    files::path_in(files::path_in(home, "bin"@), bin_name(windows))
}

/// Where the program is kept once it was fetched, in the directory of everything.
pub fn managed_bin_path(home: &str, windows: bool) -> (r: String)
    ensures
        r@ == managed_path(home@, windows),
{
    let bin = files::join_path(home, "bin");
    files::join_path(bin.as_str(), name_of(windows))
}

/// The paths of the program in the directories in which programs are searched.
pub open spec fn search_paths(dirs: Seq<Seq<char>>, windows: bool) -> Seq<Seq<char>> {
    Seq::new(dirs.len(), |i: int| files::path_in(dirs[i], bin_name(windows)))
}

/// The paths of the program in the directories in which programs are searched.
pub fn paths_in(dirs: &Vec<String>, windows: bool) -> (r: Vec<String>)
    ensures
        text::texts(r@) == search_paths(text::texts(dirs@), windows),
{
    let mut paths: Vec<String> = Vec::new();
    let mut i: usize = 0;
    while i < dirs.len()
        invariant
            i <= dirs@.len(),
            paths@.len() == i,
            forall|k: int|
                0 <= k < i ==> #[trigger] paths@[k]@ == files::path_in(
                    dirs@[k]@,
                    bin_name(windows),
                ),
        decreases dirs@.len() - i,
    {
        paths.push(files::join_path(dirs[i].as_str(), name_of(windows)));
        i = i + 1;
    }
    assert(text::texts(paths@) =~= search_paths(text::texts(dirs@), windows));
    paths
}

/// A path and what is known of the file there.
pub struct Candidate {
    pub path: String,
    pub file: Option<FileInfo>,
}

impl Candidate {
    /// Whether a program can be run from there.
    pub open spec fn usable(&self) -> bool {
        files::executable(self.file)
    }
}

/// The first path from `at` on from which a program can be run.
pub open spec fn first_usable(candidates: Seq<Candidate>, at: int) -> Option<Seq<char>>
    decreases candidates.len() - at,
{
    if at >= candidates.len() {
        None
    } else if candidates[at].usable() {
        Some(candidates[at].path@)
    } else {
        first_usable(candidates, at + 1)
    }
}

/// The first path from which a program can be run.
pub fn find_in_path(candidates: &Vec<Candidate>) -> (r: Option<String>)
    ensures
        text::held(r) == first_usable(candidates@, 0),
{
    let mut i: usize = 0;
    while i < candidates.len()
        invariant
            i <= candidates@.len(),
            first_usable(candidates@, 0) == first_usable(candidates@, i as int),
        decreases candidates@.len() - i,
    {
        if files::is_executable(candidates[i].file) {
            return Some(candidates[i].path.as_str().to_string());
        }
        i = i + 1;
    }
    None
}

/// Why there is no `cloudflared`.
pub enum CloudflaredError {
    /// The variable that names the program names none, but this.
    NotExecutable(String),
    /// The user does not want to fetch it.
    Declined,
    /// There is none for this system and processor.
    Unsupported(String, String),
    /// It could not be taken out of what was fetched.
    Extract(ExtractError),
}

/// Why there is no `cloudflared`, by the texts.
pub enum CloudflaredFailure {
    NotExecutable(Seq<char>),
    Declined,
    Unsupported(Seq<char>, Seq<char>),
    Extract(ExtractFailure),
}

impl View for CloudflaredError {
    type V = CloudflaredFailure;

    open spec fn view(&self) -> CloudflaredFailure {
        match *self {
            CloudflaredError::NotExecutable(path) => CloudflaredFailure::NotExecutable(path@),
            CloudflaredError::Declined => CloudflaredFailure::Declined,
            CloudflaredError::Unsupported(os, arch) => CloudflaredFailure::Unsupported(os@, arch@),
            CloudflaredError::Extract(e) => CloudflaredFailure::Extract(e@),
        }
    }
}

/// What the user is told.
pub open spec fn failure_text(e: CloudflaredFailure) -> Seq<char> {
    match e {
        CloudflaredFailure::NotExecutable(path) => "REMUX_CLOUDFLARED_BIN is set to '"@ + path
            + "' but no executable file exists at that path"@,
        CloudflaredFailure::Declined =>
            "cloudflared is required for remux to work.\nInstall manually: https://developers.cloudflare.com/cloudflare-one/connections/connect-networks/downloads/"@,
        CloudflaredFailure::Unsupported(os, arch) => "Unsupported platform: "@ + os + "/"@ + arch
            + ". Please install cloudflared manually."@,
        CloudflaredFailure::Extract(ExtractFailure::Entry(_)) => "Failed to read tgz entry"@,
        CloudflaredFailure::Extract(ExtractFailure::Contents(_)) =>
            "Failed to extract cloudflared from archive"@,
        CloudflaredFailure::Extract(ExtractFailure::Missing) =>
            "Downloaded archive does not contain 'cloudflared' binary"@,
    }
}

impl CloudflaredError {
    pub fn message(&self) -> (r: String)
        ensures
            r@ == failure_text(self@),
    {
        match self {
            CloudflaredError::NotExecutable(path) => {
                let mut out = "REMUX_CLOUDFLARED_BIN is set to '".to_string();
                out.append(path.as_str());
                out.append("' but no executable file exists at that path");
                out
            },
            CloudflaredError::Declined =>
                "cloudflared is required for remux to work.\nInstall manually: https://developers.cloudflare.com/cloudflare-one/connections/connect-networks/downloads/".to_string(),
            CloudflaredError::Unsupported(os, arch) => {
                let mut out = "Unsupported platform: ".to_string();
                out.append(os.as_str());
                out.append("/");
                out.append(arch.as_str());
                out.append(". Please install cloudflared manually.");
                out
            },
            CloudflaredError::Extract(ExtractError::Entry(_)) =>
                "Failed to read tgz entry".to_string(),
            CloudflaredError::Extract(ExtractError::Contents(_)) =>
                "Failed to extract cloudflared from archive".to_string(),
            CloudflaredError::Extract(ExtractError::Missing) =>
                "Downloaded archive does not contain 'cloudflared' binary".to_string(),
        }
    }
}

/// Which program is used: the one that a variable names, or else the first one
/// on the search path, or else the one that was fetched. It is an error if the
/// variable names none.
pub open spec fn resolved(
    explicit: Option<Candidate>,
    searched: Seq<Candidate>,
    managed: Candidate,
) -> Result<Option<Seq<char>>, CloudflaredFailure> {
    match explicit {
        Some(c) => if c.usable() {
            Ok(Some(c.path@))
        } else {
            Err(CloudflaredFailure::NotExecutable(c.path@))
        },
        None => match first_usable(searched, 0) {
            Some(path) => Ok(Some(path)),
            None => if managed.usable() {
                Ok(Some(managed.path@))
            } else {
                Ok(None)
            },
        },
    }
}

/// Finds the program to use, if there is one.
pub fn resolve_cloudflared(
    explicit: Option<Candidate>,
    searched: &Vec<Candidate>,
    managed: Candidate,
) -> (r: Result<Option<String>, CloudflaredError>)
    ensures
        match r {
            Ok(path) => resolved(explicit, searched@, managed) == Ok::<
                Option<Seq<char>>,
                CloudflaredFailure,
            >(text::held(path)),
            Err(e) => resolved(explicit, searched@, managed) == Err::<
                Option<Seq<char>>,
                CloudflaredFailure,
            >(e@),
        },
{
    if let Some(c) = explicit {
        if files::is_executable(c.file) {
            return Ok(Some(c.path));
        }
        return Err(CloudflaredError::NotExecutable(c.path));
    }
    if let Some(path) = find_in_path(searched) {
        return Ok(Some(path));
    }
    if files::is_executable(managed.file) {
        return Ok(Some(managed.path));
    }
    Ok(None)
}

// ---- Fetching it ----

/// How large the program is, about, on a system.
pub open spec fn size_text(os: Seq<char>) -> Seq<char> {
    if os == "linux"@ {
        "~38 MB"@
    } else if os == "macos"@ {
        "~18 MB"@
    } else if os == "windows"@ {
        "~25 MB"@
    } else {
        "~30 MB"@
    }
}

fn size_hint(os: &str) -> (r: &'static str)
    ensures
        r@ == size_text(os@),
{
    if text::same(os, "linux") {
        "~38 MB"
    } else if text::same(os, "macos") {
        "~18 MB"
    } else if text::same(os, "windows") {
        "~25 MB"
    } else {
        "~30 MB"
    }
}

/// What the user is asked before the program is fetched.
pub open spec fn prompt_text(os: Seq<char>) -> Seq<char> {
    "remux uses cloudflared to create a tunnel for remote access.\nDownload it now? ("@ + size_text(
        os,
    ) + ") [Y/n]: "@
}

/// What the user is asked before the program is fetched.
pub fn download_prompt(os: &str) -> (r: String)
    ensures
        r@ == prompt_text(os@),
{
    let mut out =
        "remux uses cloudflared to create a tunnel for remote access.\nDownload it now? (".to_string();
    out.append(size_hint(os));
    out.append(") [Y/n]: ");
    out
}

/// Whether an answer means yes, where no answer does too.
pub open spec fn accepted(input: Seq<char>) -> bool {
    let a = text::lowered(text::trimmed(input));
    a.len() == 0 || a == "y"@ || a == "yes"@
}

/// Whether the user agrees to fetch the program.
pub fn accepts_download(input: &str) -> (r: bool)
    ensures
        r == accepted(input@),
{
    let a = text::to_lower(text::trim(input));
    a.as_str().unicode_len() == 0 || text::same(a.as_str(), "y") || text::same(a.as_str(), "yes")
}

/// The file that is fetched for a system and a processor, if there is one.
pub open spec fn artifact(os: Seq<char>, arch: Seq<char>) -> Option<Seq<char>> {
    if os == "linux"@ && arch == "x86_64"@ {
        Some("cloudflared-linux-amd64"@)
    } else if os == "linux"@ && arch == "aarch64"@ {
        Some("cloudflared-linux-arm64"@)
    } else if os == "macos"@ && arch == "x86_64"@ {
        Some("cloudflared-darwin-amd64.tgz"@)
    } else if os == "macos"@ && arch == "aarch64"@ {
        Some("cloudflared-darwin-arm64.tgz"@)
    } else if os == "windows"@ && arch == "x86_64"@ {
        Some("cloudflared-windows-amd64.exe"@)
    } else if os == "windows"@ && arch == "aarch64"@ {
        Some("cloudflared-windows-arm64.exe"@)
    } else {
        None
    }
}

fn artifact_of(os: &str, arch: &str) -> (r: Option<&'static str>)
    ensures
        text::held_str(r) == artifact(os@, arch@),
{
    let intel: bool = text::same(arch, "x86_64");
    let arm: bool = text::same(arch, "aarch64");
    if text::same(os, "linux") && intel {
        Some("cloudflared-linux-amd64")
    } else if text::same(os, "linux") && arm {
        Some("cloudflared-linux-arm64")
    } else if text::same(os, "macos") && intel {
        Some("cloudflared-darwin-amd64.tgz")
    } else if text::same(os, "macos") && arm {
        Some("cloudflared-darwin-arm64.tgz")
    } else if text::same(os, "windows") && intel {
        Some("cloudflared-windows-amd64.exe")
    } else if text::same(os, "windows") && arm {
        Some("cloudflared-windows-arm64.exe")
    } else {
        None
    }
}

/// The address of a file that is fetched.
pub open spec fn artifact_url(name: Seq<char>) -> Seq<char> {
    "https://github.com/cloudflare/cloudflared/releases/latest/download/"@ + name
}

/// Where the program is fetched from.
pub fn download_url(os: &str, arch: &str) -> (r: Result<String, CloudflaredError>)
    ensures
        match r {
            Ok(url) => artifact(os@, arch@) matches Some(name) && url@ == artifact_url(name),
            Err(e) => artifact(os@, arch@) is None && e@ == CloudflaredFailure::Unsupported(
                os@,
                arch@,
            ),
        },
{
    match artifact_of(os, arch) {
        Some(name) => {
            let mut url =
                "https://github.com/cloudflare/cloudflared/releases/latest/download/".to_string();
            url.append(name);
            Ok(url)
        },
        None => Err(CloudflaredError::Unsupported(os.to_string(), arch.to_string())),
    }
}

/// A number with at least three places.
pub open spec fn three_places(n: nat) -> Seq<char> {
    ansi::spaces(text::minus(3, text::decimal(n).len() as int)) + text::decimal(n)
}

/// How far the download is: so many of thirty blocks, and in percent.
pub open spec fn progress_text(filled: int, percent: nat) -> Seq<char> {
    "\r\x1b[KDownloading cloudflared  ["@ + Seq::new(filled as nat, |i: int| '\u{2588}') + Seq::new(
        (30 - filled) as nat,
        |i: int| '\u{2591}',
    ) + "] "@ + three_places(percent) + "%"@
}

/// Shows how far the download is.
pub fn progress_line(filled: usize, percent: u32) -> (r: String)
    requires
        filled <= 30,
    ensures
        r@ == progress_text(filled as int, percent as nat),
{
    let mut number = String::new();
    text::push_decimal(&mut number, percent as u64);
    assert(number@ =~= text::decimal(percent as nat));
    let places: usize = number.as_str().unicode_len();
    let mut out = "\r\x1b[KDownloading cloudflared  [".to_string();
    text::push_repeated(&mut out, '\u{2588}', filled);
    text::push_repeated(&mut out, '\u{2591}', 30 - filled);
    out.append("] ");
    let pad: usize = if places < 3 {
        3 - places
    } else {
        0
    };
    ansi::push_spaces(&mut out, pad);
    out.append(number.as_str());
    out.append("%");
    assert(out@ =~= progress_text(filled as int, percent as nat));
    out
}

/// Whether what is fetched for a system is an archive.
pub fn is_archive(os: &str) -> (r: bool)
    ensures
        r == (os@ == "macos"@),
{
    text::same(os, "macos")
}

/// The program out of what was fetched: all of it, or a file in an archive.
pub fn fetched_binary(os: &str, bytes: Vec<u8>) -> (r: Result<Vec<u8>, CloudflaredError>)
    ensures
        match r {
            Ok(data) => if os@ == "macos"@ {
                archive::extracted(bytes@, "cloudflared"@) == Ok::<Seq<u8>, ExtractFailure>(data@)
            } else {
                data@ == bytes@
            },
            Err(e) => os@ == "macos"@ && e@ is Extract && archive::extracted(
                bytes@,
                "cloudflared"@,
            ) == Err::<Seq<u8>, ExtractFailure>(e@->Extract_0),
        },
{
    if is_archive(os) {
        match archive::extract_file(bytes.as_slice(), "cloudflared") {
            Ok(data) => Ok(data),
            Err(e) => Err(CloudflaredError::Extract(e)),
        }
    } else {
        Ok(bytes)
    }
}

// ---- From the start ----

/// What making sure of the program waits for.
pub enum EnsureEvent {
    /// The program was found, or not.
    Resolved(Option<String>),
    /// The user was asked whether to fetch it.
    Answered(String),
    /// The program was fetched and put at this path.
    Fetched(String),
}

/// What is done to make sure of the program.
pub enum EnsureAction {
    /// The program at this path, from the root directory, is used.
    Use(String),
    /// The user is asked whether to fetch it.
    Ask,
    Fetch,
    Fail(CloudflaredError),
}

/// What is done, by the texts.
pub enum EnsureStep {
    Use(Seq<char>),
    Ask,
    Fetch,
    Fail(CloudflaredFailure),
}

impl View for EnsureAction {
    type V = EnsureStep;

    open spec fn view(&self) -> EnsureStep {
        match *self {
            EnsureAction::Use(path) => EnsureStep::Use(path@),
            EnsureAction::Ask => EnsureStep::Ask,
            EnsureAction::Fetch => EnsureStep::Fetch,
            EnsureAction::Fail(e) => EnsureStep::Fail(e@),
        }
    }
}

/// What is done to make sure of the program; `cwd` is the working directory.
pub open spec fn ensure_step(event: EnsureEvent, cwd: Seq<char>) -> EnsureStep {
    match event {
        EnsureEvent::Resolved(Some(path)) => EnsureStep::Use(files::absolute(cwd, path@)),
        EnsureEvent::Resolved(None) => EnsureStep::Ask,
        EnsureEvent::Answered(input) => if accepted(input@) {
            EnsureStep::Fetch
        } else {
            EnsureStep::Fail(CloudflaredFailure::Declined)
        },
        EnsureEvent::Fetched(path) => EnsureStep::Use(files::absolute(cwd, path@)),
    }
}

/// Says what to do next to make sure of the program; `cwd` is the working directory.
pub fn ensure_cloudflared(event: EnsureEvent, cwd: &str) -> (r: EnsureAction)
    ensures
        r@ == ensure_step(event, cwd@),
{
    match event {
        EnsureEvent::Resolved(Some(path)) => EnsureAction::Use(
            files::absolute_path(cwd, path.as_str()),
        ),
        EnsureEvent::Resolved(None) => EnsureAction::Ask,
        EnsureEvent::Answered(input) => {
            if accepts_download(input.as_str()) {
                EnsureAction::Fetch
            } else {
                EnsureAction::Fail(CloudflaredError::Declined)
            }
        },
        EnsureEvent::Fetched(path) => EnsureAction::Use(
            files::absolute_path(cwd, path.as_str()),
        ),
    }
}

// ---- Laws ----

/// Where a variable names the program, nothing else is looked at.
pub proof fn a_named_program_is_final(
    c: Candidate,
    a: Seq<Candidate>,
    b: Seq<Candidate>,
    m: Candidate,
    n: Candidate,
)
    ensures
        resolved(Some(c), a, m) == resolved(Some(c), b, n),
{
}

proof fn lemma_first_usable(candidates: Seq<Candidate>, at: int)
    requires
        0 <= at,
    ensures
        match first_usable(candidates, at) {
            Some(path) => exists|i: int|
                #![trigger candidates[i]]
                at <= i < candidates.len() && candidates[i].usable() && candidates[i].path@ == path,
            None => forall|i: int|
                at <= i < candidates.len() ==> !(#[trigger] candidates[i]).usable(),
        },
    decreases candidates.len() - at,
{
    if at < candidates.len() && !candidates[at].usable() {
        lemma_first_usable(candidates, at + 1);
    }
}

/// The program that is used can be run, and one is found wherever one is.
pub proof fn found_program_can_be_run(
    explicit: Option<Candidate>,
    searched: Seq<Candidate>,
    managed: Candidate,
)
    ensures
        resolved(explicit, searched, managed) matches Ok(Some(path)) ==> {
            ||| explicit matches Some(c) && c.usable() && c.path@ == path
            ||| exists|i: int|
                #![trigger searched[i]]
                0 <= i < searched.len() && searched[i].usable() && searched[i].path@ == path
            ||| managed.usable() && managed.path@ == path
        },
        resolved(explicit, searched, managed) matches Ok(None) ==> {
            &&& explicit is None
            &&& !managed.usable()
            &&& forall|i: int| 0 <= i < searched.len() ==> !(#[trigger] searched[i]).usable()
        },
{
    lemma_first_usable(searched, 0);
}

/// Whether a path is the way from the root directory to a program that can be run.
pub open spec fn leads_to(path: Seq<char>, cwd: Seq<char>, c: Candidate) -> bool {
    c.usable() && path == files::absolute(cwd, c.path@)
}

/// The program that is used is named from the root directory and can be run. The user
/// is asked only where no place has the program.
pub proof fn used_program_is_absolute(
    explicit: Option<Candidate>,
    searched: Seq<Candidate>,
    managed: Candidate,
    found: Option<String>,
    cwd: Seq<char>,
)
    requires
        files::is_absolute(cwd),
        resolved(explicit, searched, managed) == Ok::<Option<Seq<char>>, CloudflaredFailure>(
            text::held(found),
        ),
    ensures
        ensure_step(EnsureEvent::Resolved(found), cwd) matches EnsureStep::Use(path) ==> {
            &&& files::is_absolute(path)
            &&& {
                ||| explicit matches Some(c) && leads_to(path, cwd, c)
                ||| exists|i: int|
                    0 <= i < searched.len() && leads_to(path, cwd, #[trigger] searched[i])
                ||| leads_to(path, cwd, managed)
            }
        },
        ensure_step(EnsureEvent::Resolved(found), cwd) is Use || ensure_step(
            EnsureEvent::Resolved(found),
            cwd,
        ) is Ask,
        ensure_step(EnsureEvent::Resolved(found), cwd) is Ask ==> {
            &&& explicit is None
            &&& !managed.usable()
            &&& forall|i: int| 0 <= i < searched.len() ==> !(#[trigger] searched[i]).usable()
        },
{
    found_program_can_be_run(explicit, searched, managed);
}

/// The program that was fetched is used by its path from the root directory, also where
/// the directory of everything is named from the working directory.
pub proof fn fetched_program_is_absolute(path: String, cwd: Seq<char>)
    requires
        files::is_absolute(cwd),
    ensures
        ensure_step(EnsureEvent::Fetched(path), cwd) matches EnsureStep::Use(used)
            && files::is_absolute(used),
{
}

/// Who declines gets no program.
pub proof fn declining_fails(input: String, cwd: Seq<char>)
    requires
        !accepted(input@),
    ensures
        ensure_step(EnsureEvent::Answered(input), cwd) == EnsureStep::Fail(
            CloudflaredFailure::Declined,
        ),
{
}

/// No answer and yes mean yes, in whatever case and with any blanks around; any other word
/// means no.
pub proof fn no_answer_means_yes(a: Seq<char>, word: Seq<char>, b: Seq<char>)
    requires
        text::is_blank(a),
        text::is_blank(b),
        word.len() > 0 ==> !text::is_space(word[0]) && !text::is_space(word.last()),
    ensures
        accepted(a + word + b) <==> word.len() == 0 || text::lowered(word) == "y"@
            || text::lowered(word) == "yes"@,
{
    text::trimming_takes_the_blanks_around(a, word, b);
}

proof fn lemma_first_in_order(candidates: Seq<Candidate>, at: int, i: int)
    requires
        0 <= at <= i < candidates.len(),
        candidates[i].usable(),
        forall|k: int| at <= k < i ==> !(#[trigger] candidates[k]).usable(),
    ensures
        first_usable(candidates, at) == Some(candidates[i].path@),
    decreases i - at,
{
    if at < i {
        lemma_first_in_order(candidates, at + 1, i);
    }
}

/// A program that a variable names is used or is an error. Without one, the first place on
/// the search path that has the program wins; what was fetched comes last.
pub proof fn places_are_tried_in_order(
    searched: Seq<Candidate>,
    managed: Candidate,
    i: int,
    c: Candidate,
)
    ensures
        c.usable() ==> resolved(Some(c), searched, managed) == Ok::<
            Option<Seq<char>>,
            CloudflaredFailure,
        >(Some(c.path@)),
        !c.usable() ==> resolved(Some(c), searched, managed) == Err::<
            Option<Seq<char>>,
            CloudflaredFailure,
        >(CloudflaredFailure::NotExecutable(c.path@)),
        0 <= i < searched.len() && searched[i].usable() && (forall|k: int|
            0 <= k < i ==> !(#[trigger] searched[k]).usable()) ==> resolved(None, searched, managed)
            == Ok::<Option<Seq<char>>, CloudflaredFailure>(Some(searched[i].path@)),
        (forall|k: int| 0 <= k < searched.len() ==> !(#[trigger] searched[k]).usable())
            ==> resolved(None, searched, managed) == Ok::<Option<Seq<char>>, CloudflaredFailure>(
            if managed.usable() {
                Some(managed.path@)
            } else {
                None
            },
        ),
{
    if 0 <= i < searched.len() && searched[i].usable() && (forall|k: int|
        0 <= k < i ==> !(#[trigger] searched[k]).usable()) {
        lemma_first_in_order(searched, 0, i);
    }
    lemma_first_usable(searched, 0);
}

/// The program is looked for under its name in every directory of the search path, in
/// order, and is kept in `bin` under the directory of everything.
pub proof fn program_is_named_after_the_system(dirs: Seq<Seq<char>>, home: Seq<char>, i: int)
    requires
        0 <= i < dirs.len(),
        dirs[i].len() > 0 && dirs[i].last() != '/',
        home.len() > 0 && home.last() != '/',
    ensures
        search_paths(dirs, false).len() == dirs.len(),
        search_paths(dirs, true).len() == dirs.len(),
        search_paths(dirs, false)[i] == dirs[i] + "/cloudflared"@,
        search_paths(dirs, true)[i] == dirs[i] + "/cloudflared.exe"@,
        managed_path(home, false) == home + "/bin/cloudflared"@,
        managed_path(home, true) == home + "/bin/cloudflared.exe"@,
{
    reveal_strlit("/");
    reveal_strlit("bin");
    reveal_strlit("cloudflared");
    reveal_strlit("cloudflared.exe");
    reveal_strlit("/cloudflared");
    reveal_strlit("/cloudflared.exe");
    reveal_strlit("/bin/cloudflared");
    reveal_strlit("/bin/cloudflared.exe");
    assert("/"@ + "cloudflared"@ =~= "/cloudflared"@);
    assert("/"@ + "cloudflared.exe"@ =~= "/cloudflared.exe"@);
    assert(dirs[i] + "/"@ + "cloudflared"@ =~= dirs[i] + "/cloudflared"@);
    assert(dirs[i] + "/"@ + "cloudflared.exe"@ =~= dirs[i] + "/cloudflared.exe"@);
    let bin = home + "/"@ + "bin"@;
    assert(bin.last() == 'n');
    assert(bin + "/"@ + "cloudflared"@ =~= home + "/bin/cloudflared"@);
    assert(bin + "/"@ + "cloudflared.exe"@ =~= home + "/bin/cloudflared.exe"@);
}

/// The file for a system and a processor names both as its makers do: `darwin` for macOS,
/// `amd64` and `arm64` for the processors. It is an archive for macOS and a program for the
/// others, and there is none for any other system or processor.
#[verifier::rlimit(50)]
#[verifier::spinoff_prover]
pub proof fn file_names_system_and_processor(os: Seq<char>, arch: Seq<char>)
    ensures
        ({
            let system = if os == "macos"@ {
                "darwin"@
            } else {
                os
            };
            let processor = if arch == "x86_64"@ {
                "amd64"@
            } else {
                "arm64"@
            };
            let end = if os == "macos"@ {
                ".tgz"@
            } else if os == "windows"@ {
                ".exe"@
            } else {
                Seq::empty()
            };
            let known = (os == "linux"@ || os == "macos"@ || os == "windows"@) && (arch == "x86_64"@
                || arch == "aarch64"@);
            &&& artifact(os, arch) is Some <==> known
            &&& known ==> artifact(os, arch) == Some(
                "cloudflared-"@ + system + "-"@ + processor + end,
            )
        }),
{
    reveal_strlit("cloudflared-");
    reveal_strlit("-");
    reveal_strlit("linux");
    reveal_strlit("macos");
    reveal_strlit("windows");
    reveal_strlit("darwin");
    reveal_strlit("x86_64");
    reveal_strlit("aarch64");
    reveal_strlit("amd64");
    reveal_strlit("arm64");
    reveal_strlit(".tgz");
    reveal_strlit(".exe");
    reveal_strlit("cloudflared-linux-amd64");
    reveal_strlit("cloudflared-linux-arm64");
    reveal_strlit("cloudflared-darwin-amd64.tgz");
    reveal_strlit("cloudflared-darwin-arm64.tgz");
    reveal_strlit("cloudflared-windows-amd64.exe");
    reveal_strlit("cloudflared-windows-arm64.exe");
    let none = Seq::<char>::empty();
    assert("x86_64"@.len() != "aarch64"@.len());
    assert("linux"@[0] != "macos"@[0] && "linux"@[0] != "windows"@[0]);
    assert("macos"@[0] != "windows"@[0]);
    assert("cloudflared-linux-amd64"@ =~= "cloudflared-"@ + "linux"@ + "-"@ + "amd64"@ + none);
    assert("cloudflared-linux-arm64"@ =~= "cloudflared-"@ + "linux"@ + "-"@ + "arm64"@ + none);
    assert("cloudflared-darwin-amd64.tgz"@ =~= "cloudflared-"@ + "darwin"@ + "-"@ + "amd64"@
        + ".tgz"@);
    assert("cloudflared-darwin-arm64.tgz"@ =~= "cloudflared-"@ + "darwin"@ + "-"@ + "arm64"@
        + ".tgz"@);
    assert("cloudflared-windows-amd64.exe"@ =~= "cloudflared-"@ + "windows"@ + "-"@ + "amd64"@
        + ".exe"@);
    assert("cloudflared-windows-arm64.exe"@ =~= "cloudflared-"@ + "windows"@ + "-"@ + "arm64"@
        + ".exe"@);
}

/// The bar of the download has thirty blocks, of which the first so many are full, and the
/// percentage stands behind it, to the right in three places.
pub proof fn bar_shows_how_far_it_is(filled: int, percent: nat)
    requires
        0 <= filled <= 30,
        percent <= 100,
    ensures
        ({
            let t = progress_text(filled, percent);
            let head = "\r\x1b[KDownloading cloudflared  ["@;
            let n = head.len() as int;
            &&& t.take(n) == head
            &&& forall|i: int|
                0 <= i < 30 ==> #[trigger] t[n + i] == if i < filled {
                    '\u{2588}'
                } else {
                    '\u{2591}'
                }
            &&& t.len() == n + 30 + 6
            &&& t.subrange(n + 30, n + 32) == "] "@
            &&& t[n + 35] == '%'
            &&& text::decimal(percent).is_suffix_of(t.subrange(n + 32, n + 35))
            &&& forall|i: int|
                n + 32 <= i < n + 35 - text::decimal(percent).len() ==> #[trigger] t[i] == ' '
        }),
{
    reveal_strlit("] ");
    reveal_strlit("%");
    let head = "\r\x1b[KDownloading cloudflared  ["@;
    let n = head.len() as int;
    let t = progress_text(filled, percent);
    let d = text::decimal(percent);
    reveal_with_fuel(text::decimal, 4);
    assert(1 <= d.len() <= 3);
    assert(t.take(n) =~= head);
    assert(t.subrange(n + 30, n + 32) =~= "] "@);
    let places = t.subrange(n + 32, n + 35);
    assert(places =~= three_places(percent));
    assert(places.subrange(3 - d.len(), 3) =~= d);
}

/// What the user is told names the path, or the system and the processor, that it is about.
pub proof fn messages_name_what_they_are_about(path: Seq<char>, os: Seq<char>, arch: Seq<char>)
    ensures
        text::occurs(
            failure_text(CloudflaredFailure::NotExecutable(path)),
            seq!['\''] + path + seq!['\''],
        ),
        text::occurs(
            failure_text(CloudflaredFailure::Unsupported(os, arch)),
            os + seq!['/'] + arch,
        ),
{
    reveal_strlit("REMUX_CLOUDFLARED_BIN is set to '");
    reveal_strlit("' but no executable file exists at that path");
    reveal_strlit("Unsupported platform: ");
    reveal_strlit("/");
    let a = failure_text(CloudflaredFailure::NotExecutable(path));
    let n = "REMUX_CLOUDFLARED_BIN is set to '"@.len() - 1;
    assert(a.subrange(n, n + path.len() + 2) =~= seq!['\''] + path + seq!['\'']);
    assert(text::occurs_at(a, seq!['\''] + path + seq!['\''], n));
    let b = failure_text(CloudflaredFailure::Unsupported(os, arch));
    let m = "Unsupported platform: "@.len() as int;
    assert(b.subrange(m, m + os.len() + 1 + arch.len()) =~= os + seq!['/'] + arch);
    assert(text::occurs_at(b, os + seq!['/'] + arch, m));
}

/// What was found or fetched is used under its own path: as it is where it starts at the
/// root, and behind the working directory otherwise. Where nothing was found the user is
/// asked, and who agrees gets the program.
pub proof fn found_program_is_used_under_its_path(path: String, input: String, cwd: Seq<char>)
    requires
        cwd.len() > 0,
        cwd.last() != '/',
    ensures
        ({
            let used = if path@.len() > 0 && path@[0] == '/' {
                path@
            } else {
                cwd + seq!['/'] + path@
            };
            &&& ensure_step(EnsureEvent::Resolved(Some(path)), cwd) == EnsureStep::Use(used)
            &&& ensure_step(EnsureEvent::Fetched(path), cwd) == EnsureStep::Use(used)
        }),
        ensure_step(EnsureEvent::Resolved(None), cwd) is Ask,
        accepted(input@) ==> ensure_step(EnsureEvent::Answered(input), cwd) is Fetch,
{
    reveal_strlit("/");
    assert("/"@ =~= seq!['/']);
}

/// The user is asked with the size of what is fetched for the system.
pub proof fn question_names_the_size(os: Seq<char>)
    ensures
        text::occurs(
            prompt_text(os),
            seq!['('] + (if os == "linux"@ {
                "~38 MB"@
            } else if os == "macos"@ {
                "~18 MB"@
            } else if os == "windows"@ {
                "~25 MB"@
            } else {
                "~30 MB"@
            }) + seq![')'],
        ),
        "[Y/n]: "@.is_suffix_of(prompt_text(os)),
{
    reveal_strlit(
        "remux uses cloudflared to create a tunnel for remote access.\nDownload it now? (",
    );
    reveal_strlit(") [Y/n]: ");
    reveal_strlit("[Y/n]: ");
    let head = "remux uses cloudflared to create a tunnel for remote access.\nDownload it now? ("@;
    let t = prompt_text(os);
    let size = size_text(os);
    let n = head.len() - 1;
    let want = seq!['('] + size + seq![')'];
    assert(t.subrange(n, n + want.len()) =~= want);
    assert(text::occurs_at(t, want, n));
    assert(t.subrange(t.len() - 7, t.len() as int) =~= "[Y/n]: "@);
}

/// The program is fetched from the latest release of its makers.
pub proof fn program_is_fetched_from_its_makers(name: Seq<char>)
    ensures
        ({
            let url = artifact_url(name);
            let head = "https://github.com/cloudflare/cloudflared/"@;
            let n = head.len() as int;
            &&& url.take(n) == head
            &&& url.skip(n) == "releases/latest/download/"@ + name
        }),
{
    reveal_strlit("https://github.com/cloudflare/cloudflared/releases/latest/download/");
    reveal_strlit("https://github.com/cloudflare/cloudflared/");
    reveal_strlit("releases/latest/download/");
    let url = artifact_url(name);
    let head = "https://github.com/cloudflare/cloudflared/"@;
    let n = head.len() as int;
    assert(url.take(n) =~= head);
    assert(url.skip(n) =~= "releases/latest/download/"@ + name);
}

/// What the user is told of an archive tells an entry that cannot be read, a program that
/// cannot be taken out and one that is not there from each other.
pub proof fn archive_failures_are_told_apart(why: Seq<char>)
    ensures
        text::occurs(
            failure_text(CloudflaredFailure::Extract(ExtractFailure::Entry(why))),
            "entry"@,
        ),
        text::occurs(
            failure_text(CloudflaredFailure::Extract(ExtractFailure::Contents(why))),
            "extract"@,
        ),
        text::occurs(
            failure_text(CloudflaredFailure::Extract(ExtractFailure::Missing)),
            "does not contain 'cloudflared'"@,
        ),
{
    reveal_strlit("Failed to read tgz entry");
    reveal_strlit("Failed to extract cloudflared from archive");
    reveal_strlit("Downloaded archive does not contain 'cloudflared' binary");
    reveal_strlit("entry");
    reveal_strlit("extract");
    reveal_strlit("does not contain 'cloudflared'");
    let a = "Failed to read tgz entry"@;
    let b = "Failed to extract cloudflared from archive"@;
    let c = "Downloaded archive does not contain 'cloudflared' binary"@;
    assert(a.subrange(19, 24) =~= "entry"@);
    assert(text::occurs_at(a, "entry"@, 19));
    assert(b.subrange(10, 17) =~= "extract"@);
    assert(text::occurs_at(b, "extract"@, 10));
    assert(c.subrange(19, 49) =~= "does not contain 'cloudflared'"@);
    assert(text::occurs_at(c, "does not contain 'cloudflared'"@, 19));
}

} // verus!
