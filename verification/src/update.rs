//! Updates: when to look for one, which version is newer, and putting a fetched
//! one in place.

use vstd::prelude::*;

use crate::archive;
use crate::archive::{ExtractError, ExtractFailure};
use crate::files;
use crate::files::FileInfo;
use crate::text;

verus! {

/// Updates are looked for once in so many seconds.
pub const CHECK_INTERVAL_SECS: u64 = 86400;

/// No program is shorter than this.
pub const MIN_BINARY_LEN: u64 = 1024;

// ---- Paths in the directory of everything ----

pub open spec fn bin_text(home: Seq<char>) -> Seq<char> {
    files::path_in(files::path_in(home, "bin"@), "remux"@)
}

pub open spec fn staged_text(home: Seq<char>) -> Seq<char> {
    files::path_in(home, "staged"@)
}

/// Where the program is installed.
pub fn bin_path(home: &str) -> (r: String)
    ensures
        r@ == bin_text(home@),
{
    let bin = files::join_path(home, "bin");
    files::join_path(bin.as_str(), "remux")
}

/// Where an update waits until the next start.
pub fn staged_dir(home: &str) -> (r: String)
    ensures
        r@ == staged_text(home@),
{
    files::join_path(home, "staged")
}

/// The program that waits until the next start.
pub fn staged_binary_path(home: &str) -> (r: String)
    ensures
        r@ == files::path_in(staged_text(home@), "remux"@),
{
    let dir = staged_dir(home);
    files::join_path(dir.as_str(), "remux")
}

/// The file that says when updates were last looked for.
pub fn last_check_path(home: &str) -> (r: String)
    ensures
        r@ == files::path_in(home@, "last_update_check"@),
{
    files::join_path(home, "last_update_check")
}

// ---- Putting an update in place ----

/// Whether a file can be a program: long enough, and executable.
pub open spec fn valid_binary(file: Option<FileInfo>) -> bool {
    &&& files::executable(file)
    &&& file->0.len >= MIN_BINARY_LEN
}

/// Whether a file can be a program.
pub fn is_valid_binary(file: Option<FileInfo>) -> (r: bool)
    ensures
        r == valid_binary(file),
{
    match file {
        Some(f) => f.len >= MIN_BINARY_LEN && files::is_executable(file),
        None => false,
    }
}

/// What came of the last step of putting an update in place. Errors come with
/// their reason.
pub enum ApplyEvent {
    /// Whether there is something that waits, and what is known of it.
    Staged { exists: bool, file: Option<FileInfo> },
    /// The directory of the program was made.
    DirectoryMade(Option<String>),
    /// The update was moved there.
    Moved(Option<String>),
}

/// The next step of putting an update in place.
pub enum ApplyAction {
    /// There is nothing to do.
    Stop,
    MakeDirectory,
    Move,
    /// The user is told, and what waits is removed.
    CleanUp(String),
}

/// The next step, by the texts.
pub enum ApplyStep {
    Stop,
    MakeDirectory,
    Move,
    CleanUp(Seq<char>),
}

impl View for ApplyAction {
    type V = ApplyStep;

    open spec fn view(&self) -> ApplyStep {
        match *self {
            ApplyAction::Stop => ApplyStep::Stop,
            ApplyAction::MakeDirectory => ApplyStep::MakeDirectory,
            ApplyAction::Move => ApplyStep::Move,
            ApplyAction::CleanUp(t) => ApplyStep::CleanUp(t@),
        }
    }
}

/// The next step of putting an update in place.
pub open spec fn apply_step(event: ApplyEvent) -> ApplyStep {
    match event {
        ApplyEvent::Staged { exists, file } => if !exists {
            ApplyStep::Stop
        } else if !valid_binary(file) {
            ApplyStep::CleanUp("remux: staged update binary is invalid, cleaning up"@)
        } else {
            ApplyStep::MakeDirectory
        },
        ApplyEvent::DirectoryMade(None) => ApplyStep::Move,
        ApplyEvent::DirectoryMade(Some(why)) => ApplyStep::CleanUp(
            "remux: failed to create bin directory: "@ + why@,
        ),
        ApplyEvent::Moved(None) => ApplyStep::CleanUp("remux: updated successfully"@),
        ApplyEvent::Moved(Some(why)) => ApplyStep::CleanUp(
            "remux: failed to apply update: "@ + why@,
        ),
    }
}

/// Says what to do next to put an update in place.
pub fn apply_staged_update(event: ApplyEvent) -> (r: ApplyAction)
    ensures
        r@ == apply_step(event),
{
    match event {
        ApplyEvent::Staged { exists, file } => {
            if !exists {
                ApplyAction::Stop
            } else if !is_valid_binary(file) {
                ApplyAction::CleanUp(
                    "remux: staged update binary is invalid, cleaning up".to_string(),
                )
            } else {
                ApplyAction::MakeDirectory
            }
        },
        ApplyEvent::DirectoryMade(None) => ApplyAction::Move,
        ApplyEvent::DirectoryMade(Some(why)) => {
            let mut out = "remux: failed to create bin directory: ".to_string();
            out.append(why.as_str());
            ApplyAction::CleanUp(out)
        },
        ApplyEvent::Moved(None) => ApplyAction::CleanUp("remux: updated successfully".to_string()),
        ApplyEvent::Moved(Some(why)) => {
            let mut out = "remux: failed to apply update: ".to_string();
            out.append(why.as_str());
            ApplyAction::CleanUp(out)
        },
    }
}

// ---- Looking for an update ----

/// Whether it is time to look for updates: they were never looked for, or a day
/// ago or longer.
pub open spec fn check_is_due(last: Option<Seq<char>>, now: u64) -> bool {
    match last {
        None => true,
        Some(t) => match text::unsigned(text::trimmed(t), u64::MAX as nat) {
            None => true,
            Some(time) => now - time >= CHECK_INTERVAL_SECS,
        },
    }
}

/// Whether it is time to look for updates, by what the file holds that says when
/// they were last looked for, and the time in seconds.
pub fn should_check_for_update(last: Option<&str>, now: u64) -> (r: bool)
    ensures
        r == check_is_due(text::held_str(last), now),
{
    match last {
        None => true,
        Some(t) => match text::parse_unsigned(text::trim(t), u64::MAX) {
            None => true,
            Some(time) => now >= time && now - time >= CHECK_INTERVAL_SECS,
        },
    }
}

/// What is written to that file.
pub fn update_timestamp(now: u64) -> (r: String)
    ensures
        r@ == text::decimal(now as nat),
{
    let mut out = String::new();
    text::push_decimal(&mut out, now);
    assert(out@ =~= text::decimal(now as nat));
    out
}

/// The version that a tag names.
pub fn tag_version(tag: &str) -> (r: String)
    ensures
        r@ == text::strip_all(tag@, "v"@),
{
    text::trim_start_matches(tag, "v").to_string()
}

// ---- Versions ----

/// The version that a text names: three numbers with dots between them. What
/// follows another dot does not count.
pub open spec fn version(s: Seq<char>) -> Option<(nat, nat, nat)> {
    let parts = text::fields(s, '.');
    if parts.len() < 3 {
        None
    } else {
        match (
            text::unsigned(parts[0], u32::MAX as nat),
            text::unsigned(parts[1], u32::MAX as nat),
            text::unsigned(parts[2], u32::MAX as nat),
        ) {
            (Some(a), Some(b), Some(c)) => Some((a, b, c)),
            _ => None,
        }
    }
}

/// Whether a version comes before another.
pub open spec fn before(a: (nat, nat, nat), b: (nat, nat, nat)) -> bool {
    ||| a.0 < b.0
    ||| a.0 == b.0 && a.1 < b.1
    ||| a.0 == b.0 && a.1 == b.1 && a.2 < b.2
}

/// Whether one text names a later version than the other; both have to name one.
pub open spec fn newer(latest: Seq<char>, current: Seq<char>) -> bool {
    match (version(latest), version(current)) {
        (Some(l), Some(c)) => before(c, l),
        _ => false,
    }
}

fn number(part: &str) -> (r: Option<u32>)
    ensures
        match r {
            Some(n) => text::unsigned(part@, u32::MAX as nat) == Some(n as nat),
            None => text::unsigned(part@, u32::MAX as nat) is None,
        },
{
    match text::parse_unsigned(part, u32::MAX as u64) {
        Some(n) => Some(n as u32),
        None => None,
    }
}

/// The version that a text names.
pub fn parse_version(s: &str) -> (r: Option<(u32, u32, u32)>)
    ensures
        match r {
            Some((a, b, c)) => version(s@) == Some((a as nat, b as nat, c as nat)),
            None => version(s@) is None,
        },
{
    let parts = text::split(s, '.');
    proof {
        assert(text::texts(parts@).len() == parts@.len());
    }
    if parts.len() < 3 {
        return None;
    }
    proof {
        assert(text::texts(parts@)[0] == parts@[0]@);
        assert(text::texts(parts@)[1] == parts@[1]@);
        assert(text::texts(parts@)[2] == parts@[2]@);
    }
    match (number(parts[0].as_str()), number(parts[1].as_str()), number(parts[2].as_str())) {
        (Some(a), Some(b), Some(c)) => Some((a, b, c)),
        _ => None,
    }
}

/// Whether one version is later than the other.
pub fn is_newer(latest: &str, current: &str) -> (r: bool)
    ensures
        r == newer(latest@, current@),
{
    match (parse_version(latest), parse_version(current)) {
        (Some(l), Some(c)) => c.0 < l.0 || (c.0 == l.0 && (c.1 < l.1 || (c.1 == l.1 && c.2 < l.2))),
        _ => false,
    }
}

// ---- The search in the background ----

/// What the search for an update waits for.
pub enum CheckEvent {
    /// The program has started, at a time in seconds; with what the file holds that
    /// says when updates were last looked for.
    Started { last: Option<String>, now: u64 },
    /// The tag of the latest release is known, and when it was looked for has been
    /// written down.
    Latest(String),
}

/// What the search does.
pub enum CheckAction {
    /// Updates were looked for recently.
    Skip,
    /// The tag of the latest release is looked up.
    LookUp,
    /// There is nothing newer.
    UpToDate,
    /// The version with this number is fetched.
    Fetch(String),
}

/// What the search does, by the texts.
pub enum CheckStep {
    Skip,
    LookUp,
    UpToDate,
    Fetch(Seq<char>),
}

impl View for CheckAction {
    type V = CheckStep;

    open spec fn view(&self) -> CheckStep {
        match *self {
            CheckAction::Skip => CheckStep::Skip,
            CheckAction::LookUp => CheckStep::LookUp,
            CheckAction::UpToDate => CheckStep::UpToDate,
            CheckAction::Fetch(v) => CheckStep::Fetch(v@),
        }
    }
}

/// What the search does; `current` is the version that runs.
pub open spec fn check_step(event: CheckEvent, current: Seq<char>) -> CheckStep {
    match event {
        CheckEvent::Started { last, now } => if check_is_due(text::held(last), now) {
            CheckStep::LookUp
        } else {
            CheckStep::Skip
        },
        CheckEvent::Latest(tag) => {
            let latest = text::strip_all(tag@, "v"@);
            if newer(latest, current) {
                CheckStep::Fetch(latest)
            } else {
                CheckStep::UpToDate
            }
        },
    }
}

/// Says what to do next to look for an update.
pub fn background_update_check(event: CheckEvent, current: &str) -> (r: CheckAction)
    ensures
        r@ == check_step(event, current@),
{
    match event {
        CheckEvent::Started { last, now } => {
            let last: Option<&str> = match &last {
                Some(t) => Some(t.as_str()),
                None => None,
            };
            if should_check_for_update(last, now) {
                CheckAction::LookUp
            } else {
                CheckAction::Skip
            }
        },
        CheckEvent::Latest(tag) => {
            let latest = tag_version(tag.as_str());
            if is_newer(latest.as_str(), current) {
                CheckAction::Fetch(latest)
            } else {
                CheckAction::UpToDate
            }
        },
    }
}

// ---- Fetching an update ----

/// Why there is no update.
pub enum UpdateError {
    /// There is none for this system and processor.
    Unsupported(String, String),
    /// It could not be taken out of what was fetched.
    Extract(ExtractError),
    /// What was taken out is no program.
    Invalid,
}

/// Why there is no update, by the texts.
pub enum UpdateFailure {
    Unsupported(Seq<char>, Seq<char>),
    Extract(ExtractFailure),
    Invalid,
}

impl View for UpdateError {
    type V = UpdateFailure;

    open spec fn view(&self) -> UpdateFailure {
        match *self {
            UpdateError::Unsupported(os, arch) => UpdateFailure::Unsupported(os@, arch@),
            UpdateError::Extract(e) => UpdateFailure::Extract(e@),
            UpdateError::Invalid => UpdateFailure::Invalid,
        }
    }
}

/// What the log says.
pub open spec fn failure_text(e: UpdateFailure) -> Seq<char> {
    match e {
        UpdateFailure::Unsupported(os, arch) => "Unsupported platform: "@ + os + "/"@ + arch,
        UpdateFailure::Extract(ExtractFailure::Entry(_)) => "Failed to read tarball entry"@,
        UpdateFailure::Extract(ExtractFailure::Contents(_)) => "Failed to extract binary"@,
        UpdateFailure::Extract(ExtractFailure::Missing) =>
            "Tarball does not contain 'remux-cli' binary"@,
        UpdateFailure::Invalid => "Staged binary failed validation"@,
    }
}

impl UpdateError {
    pub fn message(&self) -> (r: String)
        ensures
            r@ == failure_text(self@),
    {
        match self {
            UpdateError::Unsupported(os, arch) => {
                let mut out = "Unsupported platform: ".to_string();
                out.append(os.as_str());
                out.append("/");
                out.append(arch.as_str());
                out
            },
            UpdateError::Extract(ExtractError::Entry(_)) =>
                "Failed to read tarball entry".to_string(),
            UpdateError::Extract(ExtractError::Contents(_)) =>
                "Failed to extract binary".to_string(),
            UpdateError::Extract(ExtractError::Missing) =>
                "Tarball does not contain 'remux-cli' binary".to_string(),
            UpdateError::Invalid => "Staged binary failed validation".to_string(),
        }
    }
}

/// The name under which a system and a processor are built for.
pub open spec fn target(os: Seq<char>, arch: Seq<char>) -> Option<Seq<char>> {
    if os == "macos"@ && arch == "aarch64"@ {
        Some("aarch64-apple-darwin"@)
    } else if os == "macos"@ && arch == "x86_64"@ {
        Some("x86_64-apple-darwin"@)
    } else if os == "linux"@ && arch == "aarch64"@ {
        Some("aarch64-unknown-linux-gnu"@)
    } else if os == "linux"@ && arch == "x86_64"@ {
        Some("x86_64-unknown-linux-gnu"@)
    } else {
        None
    }
}

/// The name under which a system and a processor are built for.
pub fn platform_target(os: &str, arch: &str) -> (r: Result<&'static str, UpdateError>)
    ensures
        match r {
            Ok(t) => target(os@, arch@) == Some(t@),
            Err(e) => target(os@, arch@) is None && e@ == UpdateFailure::Unsupported(os@, arch@),
        },
{
    let intel: bool = text::same(arch, "x86_64");
    let arm: bool = text::same(arch, "aarch64");
    if text::same(os, "macos") && arm {
        Ok("aarch64-apple-darwin")
    } else if text::same(os, "macos") && intel {
        Ok("x86_64-apple-darwin")
    } else if text::same(os, "linux") && arm {
        Ok("aarch64-unknown-linux-gnu")
    } else if text::same(os, "linux") && intel {
        Ok("x86_64-unknown-linux-gnu")
    } else {
        Err(UpdateError::Unsupported(os.to_string(), arch.to_string()))
    }
}

/// The address of a version for a target.
pub open spec fn release_url(version: Seq<char>, target: Seq<char>) -> Seq<char> {
    "https://github.com/shivships/remux-cli/releases/download/v"@ + version + "/remux-cli-"@
        + target + ".tar.gz"@
}

/// Where a version is fetched from.
pub fn download_url(version: &str, os: &str, arch: &str) -> (r: Result<String, UpdateError>)
    ensures
        match r {
            Ok(url) => target(os@, arch@) matches Some(t) && url@ == release_url(version@, t),
            Err(e) => target(os@, arch@) is None && e@ == UpdateFailure::Unsupported(os@, arch@),
        },
{
    match platform_target(os, arch) {
        Ok(t) => {
            let mut url = "https://github.com/shivships/remux-cli/releases/download/v".to_string();
            url.append(version);
            url.append("/remux-cli-");
            url.append(t);
            url.append(".tar.gz");
            Ok(url)
        },
        Err(e) => Err(e),
    }
}

/// The program out of what was fetched.
pub fn extract_binary_from_tarball(bytes: &[u8]) -> (r: Result<Vec<u8>, UpdateError>)
    ensures
        match r {
            Ok(data) => archive::extracted(bytes@, "remux-cli"@) == Ok::<Seq<u8>, ExtractFailure>(
                data@,
            ),
            Err(e) => e@ is Extract && archive::extracted(bytes@, "remux-cli"@) == Err::<
                Seq<u8>,
                ExtractFailure,
            >(e@->Extract_0),
        },
{
    match archive::extract_file(bytes, "remux-cli") {
        Ok(data) => Ok(data),
        Err(e) => Err(UpdateError::Extract(e)),
    }
}

/// Whether an update that was stored may stay; if not, it is removed.
pub fn keep_staged(file: Option<FileInfo>) -> (r: Result<(), UpdateError>)
    ensures
        r is Ok <==> valid_binary(file),
        r matches Err(e) ==> e@ is Invalid,
{
    if is_valid_binary(file) {
        Ok(())
    } else {
        Err(UpdateError::Invalid)
    }
}

// ---- Laws ----

/// "Newer" is a strict order: no version is newer than itself, not both of two
/// are newer than the other, and it carries on. Of two texts that name different
/// versions, one is newer.
pub proof fn newer_is_a_strict_order(a: Seq<char>, b: Seq<char>, c: Seq<char>)
    ensures
        !newer(a, a),
        newer(a, b) ==> !newer(b, a),
        newer(a, b) && newer(b, c) ==> newer(a, c),
        version(a) is Some && version(b) is Some && version(a) != version(b) ==> newer(a, b)
            || newer(b, a),
{
}

/// What names no version is never installed, nor replaced.
pub proof fn unknown_versions_are_left_alone(a: Seq<char>, b: Seq<char>)
    requires
        version(a) is None,
    ensures
        !newer(a, b),
        !newer(b, a),
{
}

/// A version as it is written.
pub open spec fn version_text(a: nat, b: nat, c: nat) -> Seq<char> {
    text::decimal(a) + seq!['.'] + text::decimal(b) + seq!['.'] + text::decimal(c)
}

/// A version is read as it was written.
pub proof fn versions_are_read_back(a: u32, b: u32, c: u32)
    ensures
        version(version_text(a as nat, b as nat, c as nat)) == Some((a as nat, b as nat, c as nat)),
{
    let x = text::decimal(a as nat);
    let y = text::decimal(b as nat);
    let z = text::decimal(c as nat);
    text::lemma_decimal_field(a as nat);
    text::lemma_decimal_field(b as nat);
    text::lemma_decimal_field(c as nat);
    text::lemma_fields_concat(x, '.', y + seq!['.'] + z);
    text::lemma_fields_concat(y, '.', z);
    text::lemma_one_field(x, '.');
    text::lemma_one_field(y, '.');
    text::lemma_one_field(z, '.');
    assert(version_text(a as nat, b as nat, c as nat) =~= x + seq!['.'] + (y + seq!['.'] + z));
    assert(text::fields(version_text(a as nat, b as nat, c as nat), '.') =~= seq![x, y, z]);
}

/// After updates were looked for, they are not looked for again on the same day.
pub proof fn checks_are_a_day_apart(then: u64, now: u64)
    ensures
        check_is_due(Some(text::decimal(then as nat)), now) <==> now - then >= CHECK_INTERVAL_SECS,
{
    text::lemma_decimal_field(then as nat);
}

/// Whatever comes of putting an update in place, it is put there only if it is a
/// program, and what waits is removed in the end.
pub proof fn only_programs_are_put_in_place(exists: bool, file: Option<FileInfo>)
    ensures
        apply_step(ApplyEvent::Staged { exists, file }) is MakeDirectory <==> exists
            && valid_binary(file),
        apply_step(ApplyEvent::Staged { exists, file }) is Stop <==> !exists,
        apply_step(ApplyEvent::Staged { exists, file }) is CleanUp <==> exists && !valid_binary(
            file,
        ),
        forall|why: Option<String>| #[trigger] apply_step(ApplyEvent::Moved(why)) is CleanUp,
{
}

/// Of two versions that are written down the newer one is that with the greater first
/// number that differs.
pub proof fn newer_goes_by_the_first_difference(
    a: u32,
    b: u32,
    c: u32,
    x: u32,
    y: u32,
    z: u32,
)
    ensures
        newer(
            version_text(a as nat, b as nat, c as nat),
            version_text(x as nat, y as nat, z as nat),
        ) <==> (if a != x {
            a > x
        } else if b != y {
            b > y
        } else {
            c > z
        }),
{
    versions_are_read_back(a, b, c);
    versions_are_read_back(x, y, z);
}

/// What stands behind a third dot does not count, and a text with fewer than two dots names
/// no version.
pub proof fn further_parts_do_not_count(a: u32, b: u32, c: u32, rest: Seq<char>)
    ensures
        version(version_text(a as nat, b as nat, c as nat) + seq!['.'] + rest) == Some(
            (a as nat, b as nat, c as nat),
        ),
        version(text::decimal(a as nat) + seq!['.'] + text::decimal(b as nat)) is None,
        version(text::decimal(a as nat)) is None,
{
    let x = text::decimal(a as nat);
    let y = text::decimal(b as nat);
    let z = text::decimal(c as nat);
    let t = version_text(a as nat, b as nat, c as nat);
    text::lemma_decimal_field(a as nat);
    text::lemma_decimal_field(b as nat);
    text::lemma_decimal_field(c as nat);
    text::lemma_one_field(x, '.');
    text::lemma_one_field(y, '.');
    text::lemma_one_field(z, '.');
    text::lemma_fields_concat(x, '.', y);
    text::lemma_fields_concat(x + seq!['.'] + y, '.', z);
    text::lemma_fields_concat(t, '.', rest);
    text::lemma_fields_nonempty(rest, '.');
    let parts = text::fields(t + seq!['.'] + rest, '.');
    assert(parts =~= seq![x, y, z] + text::fields(rest, '.'));
    assert(parts[0] == x && parts[1] == y && parts[2] == z);
}

/// A release is fetched if its tag, with a `v` before it or without, names a newer version
/// than the one that runs; then it is fetched under the version that the tag names.
pub proof fn newer_release_is_fetched(a: u32, b: u32, c: u32, tag: String, current: Seq<char>)
    requires
        tag@ == version_text(a as nat, b as nat, c as nat) || tag@ == seq!['v'] + version_text(
            a as nat,
            b as nat,
            c as nat,
        ),
    ensures
        ({
            let latest = version_text(a as nat, b as nat, c as nat);
            check_step(CheckEvent::Latest(tag), current) == if newer(latest, current) {
                CheckStep::Fetch(latest)
            } else {
                CheckStep::UpToDate
            }
        }),
{
    reveal_strlit("v");
    let latest = version_text(a as nat, b as nat, c as nat);
    let v = "v"@;
    assert(v =~= seq!['v']);
    text::lemma_decimal_digits(a as nat);
    assert(latest[0] == text::decimal(a as nat)[0]);
    assert(text::is_digit(latest[0]));
    if v.is_prefix_of(latest) {
        assert(latest[0] == v[0]);
    }
    text::prefixes_are_taken_one_by_one(v, latest);
}

/// Updates are looked for where they never were, where it is not known when, and a day
/// after that; otherwise nothing is done.
pub proof fn search_starts_when_it_is_due(
    last: Option<String>,
    then: u64,
    now: u64,
    current: Seq<char>,
)
    ensures
        last is None ==> check_step(
            CheckEvent::Started { last, now },
            current,
        ) is LookUp,
        last matches Some(t) ==> (text::unsigned(text::trimmed(t@), u64::MAX as nat) is None
            ==> check_step(CheckEvent::Started { last, now }, current) is LookUp),
        last matches Some(t) ==> (t@ == text::decimal(then as nat) ==> check_step(
            CheckEvent::Started { last, now },
            current,
        ) == if now >= then + 86400 {
            CheckStep::LookUp
        } else {
            CheckStep::Skip
        }),
{
    text::lemma_decimal_field(then as nat);
}

/// A system and a processor are built for under the name of the processor and that of the
/// system, and no other ones are.
pub proof fn target_names_processor_and_system(os: Seq<char>, arch: Seq<char>)
    ensures
        ({
            let known = (os == "linux"@ || os == "macos"@) && (arch == "x86_64"@ || arch
                == "aarch64"@);
            &&& target(os, arch) is Some <==> known
            &&& known ==> target(os, arch) == Some(
                arch + if os == "macos"@ {
                    "-apple-darwin"@
                } else {
                    "-unknown-linux-gnu"@
                },
            )
        }),
{
    reveal_strlit("linux");
    reveal_strlit("macos");
    reveal_strlit("x86_64");
    reveal_strlit("aarch64");
    reveal_strlit("-apple-darwin");
    reveal_strlit("-unknown-linux-gnu");
    reveal_strlit("aarch64-apple-darwin");
    reveal_strlit("x86_64-apple-darwin");
    reveal_strlit("aarch64-unknown-linux-gnu");
    reveal_strlit("x86_64-unknown-linux-gnu");
    assert("linux"@[0] != "macos"@[0]);
    assert("x86_64"@.len() != "aarch64"@.len());
    assert("aarch64-apple-darwin"@ =~= "aarch64"@ + "-apple-darwin"@);
    assert("x86_64-apple-darwin"@ =~= "x86_64"@ + "-apple-darwin"@);
    assert("aarch64-unknown-linux-gnu"@ =~= "aarch64"@ + "-unknown-linux-gnu"@);
    assert("x86_64-unknown-linux-gnu"@ =~= "x86_64"@ + "-unknown-linux-gnu"@);
}

/// A file is taken for a program where it is a regular one of at least a kilobyte that may
/// be executed.
pub proof fn programs_are_long_and_executable(f: FileInfo)
    ensures
        !valid_binary(None),
        valid_binary(Some(f)) <==> f.is_file && f.len >= 1024 && (f.mode matches Some(mode) ==> {
            ||| mode % 2 == 1
            ||| mode / 8 % 2 == 1
            ||| mode / 64 % 2 == 1
        }),
{
    files::any_execute_bit_is_enough(f);
}

/// Where a step fails the user is told why, and what waits is removed; where it does not, the
/// next one follows.
pub proof fn failures_are_told(why: String)
    ensures
        apply_step(ApplyEvent::DirectoryMade(Some(why))) matches ApplyStep::CleanUp(t)
            && why@.is_suffix_of(t),
        apply_step(ApplyEvent::Moved(Some(why))) matches ApplyStep::CleanUp(t)
            && why@.is_suffix_of(t),
        apply_step(ApplyEvent::DirectoryMade(None)) is Move,
        apply_step(ApplyEvent::Moved(None)) == ApplyStep::CleanUp("remux: updated successfully"@),
{
    let a = "remux: failed to create bin directory: "@ + why@;
    let b = "remux: failed to apply update: "@ + why@;
    assert(a.subrange(a.len() - why@.len(), a.len() as int) =~= why@);
    assert(b.subrange(b.len() - why@.len(), b.len() as int) =~= why@);
}

/// The program and what waits for the next start lie under the directory of everything.
pub proof fn program_lies_in_the_directory_of_everything(home: Seq<char>)
    requires
        home.len() > 0,
        home.last() != '/',
    ensures
        bin_text(home) == home + "/bin/remux"@,
        staged_text(home) == home + "/staged"@,
        bin_text(home) != files::path_in(staged_text(home), "remux"@),
{
    reveal_strlit("/");
    reveal_strlit("bin");
    reveal_strlit("remux");
    reveal_strlit("staged");
    reveal_strlit("/bin/remux");
    reveal_strlit("/staged");
    let bin = home + "/"@ + "bin"@;
    assert(bin.last() == 'n');
    assert(bin + "/"@ + "remux"@ =~= home + "/bin/remux"@);
    assert(home + "/"@ + "staged"@ =~= home + "/staged"@);
    let staged = staged_text(home);
    assert(staged.last() == 'd');
    assert((staged + "/"@ + "remux"@).len() != bin_text(home).len());
}

/// A version is fetched from its release, under the name of its target.
pub proof fn version_is_fetched_from_its_release(version: Seq<char>, target: Seq<char>)
    ensures
        ({
            let url = release_url(version, target);
            let head = "https://github.com/shivships/remux-cli/releases/download/"@;
            let n = head.len() as int;
            &&& url.take(n) == head
            &&& url.skip(n) == seq!['v'] + version + seq!['/'] + "remux-cli-"@ + target + ".tar.gz"@
        }),
{
    reveal_strlit("https://github.com/shivships/remux-cli/releases/download/v");
    reveal_strlit("https://github.com/shivships/remux-cli/releases/download/");
    reveal_strlit("/remux-cli-");
    reveal_strlit("remux-cli-");
    let url = release_url(version, target);
    let head = "https://github.com/shivships/remux-cli/releases/download/"@;
    let n = head.len() as int;
    assert(url.take(n) =~= head);
    assert(url.skip(n) =~= seq!['v'] + version + seq!['/'] + "remux-cli-"@ + target + ".tar.gz"@);
}

/// A text in which one of the first three parts is no number names no version.
pub proof fn versions_are_made_of_numbers(
    x: Seq<char>,
    y: Seq<char>,
    z: Seq<char>,
)
    requires
        !x.contains('.'),
        !y.contains('.'),
        !z.contains('.'),
        text::unsigned(x, u32::MAX as nat) is None || text::unsigned(y, u32::MAX as nat) is None
            || text::unsigned(z, u32::MAX as nat) is None,
    ensures
        version(x + seq!['.'] + y + seq!['.'] + z) is None,
{
    text::lemma_one_field(x, '.');
    text::lemma_one_field(y, '.');
    text::lemma_one_field(z, '.');
    text::lemma_fields_concat(x, '.', y);
    text::lemma_fields_concat(x + seq!['.'] + y, '.', z);
    assert(text::fields(x + seq!['.'] + y + seq!['.'] + z, '.') =~= seq![x, y, z]);
}

/// What the log says of a failed update tells its reasons from each other, and names the
/// system and the processor where there is none for them.
pub proof fn update_failures_are_told_apart(why: Seq<char>, os: Seq<char>, arch: Seq<char>)
    ensures
        text::occurs(
            failure_text(UpdateFailure::Extract(ExtractFailure::Entry(why))),
            "entry"@,
        ),
        text::occurs(
            failure_text(UpdateFailure::Extract(ExtractFailure::Contents(why))),
            "extract"@,
        ),
        text::occurs(
            failure_text(UpdateFailure::Extract(ExtractFailure::Missing)),
            "does not contain 'remux-cli'"@,
        ),
        text::occurs(failure_text(UpdateFailure::Invalid), "failed validation"@),
        (os + seq!['/'] + arch).is_suffix_of(failure_text(UpdateFailure::Unsupported(os, arch))),
{
    reveal_strlit("Failed to read tarball entry");
    reveal_strlit("Failed to extract binary");
    reveal_strlit("Tarball does not contain 'remux-cli' binary");
    reveal_strlit("Staged binary failed validation");
    reveal_strlit("entry");
    reveal_strlit("extract");
    reveal_strlit("does not contain 'remux-cli'");
    reveal_strlit("failed validation");
    reveal_strlit("/");
    let a = "Failed to read tarball entry"@;
    let b = "Failed to extract binary"@;
    let c = "Tarball does not contain 'remux-cli' binary"@;
    let d = "Staged binary failed validation"@;
    assert(a.subrange(23, 28) =~= "entry"@);
    assert(text::occurs_at(a, "entry"@, 23));
    assert(b.subrange(10, 17) =~= "extract"@);
    assert(text::occurs_at(b, "extract"@, 10));
    assert(c.subrange(8, 36) =~= "does not contain 'remux-cli'"@);
    assert(text::occurs_at(c, "does not contain 'remux-cli'"@, 8));
    assert(d.subrange(14, 31) =~= "failed validation"@);
    assert(text::occurs_at(d, "failed validation"@, 14));
    let e = failure_text(UpdateFailure::Unsupported(os, arch));
    let end = os + seq!['/'] + arch;
    assert(e.subrange(e.len() - end.len(), e.len() as int) =~= end);
}

} // verus!
