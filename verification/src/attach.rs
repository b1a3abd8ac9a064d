//! Attachments: what a file is sent as, how sizes are shown, what an upload
//! asks for and where downloads go.

use vstd::prelude::*;

use crate::content::{data_message, data_message_of, AttachmentPointer, Content};
use crate::path::{extension, extension_of, file_name, file_name_of, join_path, joined};
use crate::roster::opt_text;
use crate::text::{
    chars_of, decimal, decimal_of, digit, lower, lower_of, same, starts_with,
};

verus! {

/// A file that waits to be sent with the next message.
pub struct StagedAttachment {
    pub path: String,
    /// "gif", "image", "video", "audio" or "file".
    pub kind: &'static str,
    pub mime: &'static str,
    pub size: u64,
}

impl Clone for StagedAttachment {
    fn clone(&self) -> (r: StagedAttachment)
        ensures
            r == *self,
    {
        StagedAttachment {
            path: self.path.clone(),
            kind: self.kind,
            mime: self.mime,
            size: self.size,
        }
    }
}

/// What the file system says of a path.
pub struct FileMeta {
    pub is_file: bool,
    pub size: u64,
}

// ── Sizes ────────────────────────────────────────────────────────────────────

/// `n / d` rounded to the nearest whole number, a tie to the even one.
pub open spec fn round_half_even(n: nat, d: nat) -> nat {
    let q = n / d;
    let r = n % d;
    if 2 * r > d || (2 * r == d && q % 2 == 1) {
        q + 1
    } else {
        q
    }
}

/// The distance between neighbouring double-precision numbers at `n`.
pub open spec fn double_unit(n: nat) -> nat
    decreases n,
{
    if n < 0x20_0000_0000_0000 {
        1
    } else {
        2 * double_unit(n / 2)
    }
}

/// The double-precision number nearest to `n`.
pub open spec fn nearest_double(n: nat) -> nat {
    round_half_even(n, double_unit(n)) * double_unit(n)
}

/// A number of tenths as text with one decimal.
pub open spec fn tenths_text(t: nat) -> Seq<char> {
    decimal_of(t / 10) + "."@ + seq![digit(t % 10)]
}

/// A size as shown to the user: whole bytes and kilobytes, megabytes and
/// gigabytes with one decimal.
pub open spec fn size_text(bytes: nat) -> Seq<char> {
    if bytes < 0x400 {
        decimal_of(bytes) + " B"@
    } else if bytes < 0x10_0000 {
        decimal_of(round_half_even(bytes, 0x400)) + " KB"@
    } else if bytes < 0x4000_0000 {
        tenths_text(round_half_even(bytes * 10, 0x10_0000)) + " MB"@
    } else {
        tenths_text(round_half_even(nearest_double(bytes) * 10, 0x4000_0000)) + " GB"@
    }
}

fn rounded_quotient(n: u128, d: u128) -> (r: u128)
    requires
        0 < d < 0x1_0000_0000_0000_0000,
        n < 0x1_0000_0000_0000_0000_0000_0000,
    ensures
        r == round_half_even(n as nat, d as nat),
{
    let q = n / d;
    let r = n % d;
    proof {
        assert(q <= n) by (nonlinear_arith)
            requires
                q == n / d,
                d > 0,
        ;
        assert(r < d) by (nonlinear_arith)
            requires
                r == n % d,
                d > 0,
        ;
    }
    if 2 * r > d || (2 * r == d && q % 2 == 1) {
        q + 1
    } else {
        q
    }
}

proof fn lemma_double_unit(n: nat)
    requires
        n < 0x1_0000_0000_0000_0000,
    ensures
        1 <= double_unit(n) <= 0x800,
{
    reveal_with_fuel(double_unit, 13);
}

/// Rounds a size to double precision.
fn to_double(n: u64) -> (r: u128)
    ensures
        r == nearest_double(n as nat),
        r <= n + 0x800,
{
    let mut unit: u128 = 1;
    let mut rest: u64 = n;
    proof {
        lemma_double_unit(n as nat);
    }
    while rest >= 0x20_0000_0000_0000
        invariant
            1 <= double_unit(n as nat) <= 0x800,
            unit * double_unit(rest as nat) == double_unit(n as nat),
            1 <= unit,
        decreases rest,
    {
        proof {
            let u = unit as int;
            let d = double_unit((rest / 2) as nat) as int;
            lemma_double_unit((rest / 2) as nat);
            assert(u * (2 * d) == (2 * u) * d) by (nonlinear_arith);
            assert(2 * u <= 0x800) by (nonlinear_arith)
                requires
                    (2 * u) * d <= 0x800,
                    d >= 1,
                    u >= 1,
            ;
        }
        unit = unit * 2;
        rest = rest / 2;
    }
    proof {
        assert(double_unit(rest as nat) == 1);
        assert(unit * 1 == unit);
    }
    let q = rounded_quotient(n as u128, unit);
    proof {
        let u = unit as int;
        let m = n as int;
        assert(q <= m / u + 1);
        assert((m / u) * u <= m) by (nonlinear_arith)
            requires
                u > 0,
                m >= 0,
        ;
        assert(q * u <= (m / u + 1) * u) by (nonlinear_arith)
            requires
                q <= m / u + 1,
                u > 0,
        ;
        assert((m / u + 1) * u == (m / u) * u + u) by (nonlinear_arith);
    }
    q * unit
}

fn push_tenths(t: u64) -> (r: String)
    ensures
        r@ == tenths_text(t as nat),
{
    let mut out = decimal(t / 10);
    out.append(".");
    let d: u8 = (t % 10) as u8;
    let ghost head = out@;
    out.push((48 + d) as char);
    proof {
        assert(out@ == head + seq![digit((t % 10) as nat)]);
    }
    out
}

/// Shows a size to the user.
pub fn fmt_attachment_size(bytes: u64) -> (r: String)
    ensures
        r@ == size_text(bytes as nat),
{
    if bytes < 0x400 {
        decimal(bytes).concat(" B")
    } else if bytes < 0x10_0000 {
        let kb = rounded_quotient(bytes as u128, 0x400);
        decimal(kb as u64).concat(" KB")
    } else if bytes < 0x4000_0000 {
        let tenths = rounded_quotient(bytes as u128 * 10, 0x10_0000);
        push_tenths(tenths as u64).concat(" MB")
    } else {
        let tenths = rounded_quotient(to_double(bytes) * 10, 0x4000_0000);
        push_tenths(tenths as u64).concat(" GB")
    }
}

// ── What a file is sent as ───────────────────────────────────────────────────

/// The media type for a file extension in lower case.
pub open spec fn mime_of_extension(ext: Seq<char>) -> Seq<char> {
    if ext == "jpg"@ || ext == "jpeg"@ {
        "image/jpeg"@
    } else if ext == "png"@ {
        "image/png"@
    } else if ext == "gif"@ {
        "image/gif"@
    } else if ext == "webp"@ {
        "image/webp"@
    } else if ext == "heic"@ || ext == "heif"@ {
        "image/heic"@
    } else if ext == "mp4"@ {
        "video/mp4"@
    } else if ext == "mov"@ {
        "video/quicktime"@
    } else if ext == "avi"@ {
        "video/x-msvideo"@
    } else if ext == "webm"@ {
        "video/webm"@
    } else if ext == "mkv"@ {
        "video/x-matroska"@
    } else if ext == "mp3"@ {
        "audio/mpeg"@
    } else if ext == "m4a"@ {
        "audio/mp4"@
    } else if ext == "ogg"@ {
        "audio/ogg"@
    } else if ext == "opus"@ {
        "audio/opus"@
    } else if ext == "aac"@ {
        "audio/aac"@
    } else if ext == "flac"@ {
        "audio/flac"@
    } else if ext == "wav"@ {
        "audio/wav"@
    } else if ext == "pdf"@ {
        "application/pdf"@
    } else if ext == "zip"@ {
        "application/zip"@
    } else if ext == "tar"@ {
        "application/x-tar"@
    } else if ext == "gz"@ {
        "application/gzip"@
    } else if ext == "bz2"@ {
        "application/x-bzip2"@
    } else {
        "application/octet-stream"@
    }
}

/// The media type that a path is sent as.
pub open spec fn mime_of(path: Seq<char>) -> Seq<char> {
    match extension_of(path) {
        Some(e) => mime_of_extension(lower_of(e)),
        None => mime_of_extension(Seq::empty()),
    }
}

/// What a media type is called.
pub open spec fn kind_of(mime: Seq<char>) -> Seq<char> {
    if mime == "image/gif"@ {
        "gif"@
    } else if "image/"@.is_prefix_of(mime) {
        "image"@
    } else if "video/"@.is_prefix_of(mime) {
        "video"@
    } else if "audio/"@.is_prefix_of(mime) {
        "audio"@
    } else {
        "file"@
    }
}

/// The media type for a file extension in lower case.
pub fn mime_from_extension(e: &str) -> (r: &'static str)
    ensures
        r@ == mime_of_extension(e@),
{
    if same(e, "jpg") || same(e, "jpeg") {
        "image/jpeg"
    } else if same(e, "png") {
        "image/png"
    } else if same(e, "gif") {
        "image/gif"
    } else if same(e, "webp") {
        "image/webp"
    } else if same(e, "heic") || same(e, "heif") {
        "image/heic"
    } else if same(e, "mp4") {
        "video/mp4"
    } else if same(e, "mov") {
        "video/quicktime"
    } else if same(e, "avi") {
        "video/x-msvideo"
    } else if same(e, "webm") {
        "video/webm"
    } else if same(e, "mkv") {
        "video/x-matroska"
    } else if same(e, "mp3") {
        "audio/mpeg"
    } else if same(e, "m4a") {
        "audio/mp4"
    } else if same(e, "ogg") {
        "audio/ogg"
    } else if same(e, "opus") {
        "audio/opus"
    } else if same(e, "aac") {
        "audio/aac"
    } else if same(e, "flac") {
        "audio/flac"
    } else if same(e, "wav") {
        "audio/wav"
    } else if same(e, "pdf") {
        "application/pdf"
    } else if same(e, "zip") {
        "application/zip"
    } else if same(e, "tar") {
        "application/x-tar"
    } else if same(e, "gz") {
        "application/gzip"
    } else if same(e, "bz2") {
        "application/x-bzip2"
    } else {
        "application/octet-stream"
    }
}

/// The media type that a path is sent as.
pub fn mime_from_path(path: &str) -> (r: &'static str)
    ensures
        r@ == mime_of(path@),
{
    match extension(path) {
        Some(e) => mime_from_extension(lower(e.as_str()).as_str()),
        None => {
            proof {
                reveal_strlit("");
                assert(""@ == Seq::<char>::empty());
            }
            mime_from_extension("")
        },
    }
}

/// What a media type is called.
pub fn kind_from_mime(mime: &str) -> (r: &'static str)
    ensures
        r@ == kind_of(mime@),
{
    if same(mime, "image/gif") {
        "gif"
    } else if starts_with(mime, "image/") {
        "image"
    } else if starts_with(mime, "video/") {
        "video"
    } else if starts_with(mime, "audio/") {
        "audio"
    } else {
        "file"
    }
}

/// Makes a file ready to be sent, given what the file system says of it; only a
/// file can be sent.
pub fn stage_attachment(path: &str, meta: Result<FileMeta, String>) -> (r: Result<
    StagedAttachment,
    String,
>)
    ensures
        r is Ok <==> meta is Ok && meta->Ok_0.is_file,
        r matches Ok(a) ==> {
            &&& a.path@ == path@
            &&& a.mime@ == mime_of(path@)
            &&& a.kind@ == kind_of(mime_of(path@))
            &&& a.size == meta->Ok_0.size
        },
        r matches Err(e) ==> e@ == path@ + ": "@ + (match meta {
            Ok(_) => "not a file"@,
            Err(cause) => cause@,
        }),
{
    match meta {
        Err(cause) => Err(path.to_owned().concat(": ").concat(cause.as_str())),
        Ok(meta) => {
            if !meta.is_file {
                return Err(path.to_owned().concat(": ").concat("not a file"));
            }
            let mime = mime_from_path(path);
            Ok(
                StagedAttachment {
                    path: path.to_owned(),
                    kind: kind_from_mime(mime),
                    mime,
                    size: meta.size,
                },
            )
        },
    }
}

// ── Uploads ──────────────────────────────────────────────────────────────────

/// What the service is told of a file.
pub struct AttachmentSpec {
    pub content_type: String,
    pub length: usize,
    pub file_name: Option<String>,
}

/// What the service is told of a staged file of the given length.
pub fn upload_spec(att: &StagedAttachment, length: usize) -> (r: AttachmentSpec)
    ensures
        r.content_type@ == att.mime@,
        r.length == length,
        opt_text(r.file_name) == file_name_of(att.path@),
{
    AttachmentSpec {
        content_type: att.mime.to_owned(),
        length,
        file_name: file_name(att.path.as_str()),
    }
}

/// How the upload of a file went.
pub enum UploadOutcome {
    /// The file could not be read.
    Unreadable(String),
    /// The service did not take the file.
    Refused(String),
    /// The service could not be asked.
    Failed(String),
    Uploaded(AttachmentPointer),
}

/// The pointer as it is sent: that of a GIF is marked as one.
pub open spec fn is_marked(after: AttachmentPointer, before: AttachmentPointer, gif: bool) -> bool {
    &&& after.file_name == before.file_name
    &&& after.raw == before.raw
    &&& after.flags == (if gif {
        Some(
            (match before.flags {
                Some(f) => f,
                None => 0,
            }) | 8,
        )
    } else {
        before.flags
    })
}

/// The message for an upload that did not succeed.
pub open spec fn upload_error(path: Seq<char>, outcome: UploadOutcome) -> Seq<char> {
    match outcome {
        UploadOutcome::Unreadable(e) => path + ": "@ + e@,
        UploadOutcome::Refused(e) => "upload failed: "@ + e@,
        UploadOutcome::Failed(e) => "upload error: "@ + e@,
        UploadOutcome::Uploaded(_) => Seq::empty(),
    }
}

/// The pointer to an uploaded file or, if the upload did not succeed, a message
/// and the path of the file.
pub fn uploaded(att: &StagedAttachment, outcome: UploadOutcome) -> (r: Result<
    AttachmentPointer,
    (String, String),
>)
    ensures
        r is Ok <==> outcome is Uploaded,
        r matches Ok(p) ==> is_marked(p, outcome->Uploaded_0, att.mime@ == "image/gif"@),
        r matches Err(e) ==> e.0@ == upload_error(att.path@, outcome) && e.1@ == att.path@,
{
    match outcome {
        UploadOutcome::Unreadable(e) => Err(
            (att.path.clone().concat(": ").concat(e.as_str()), att.path.clone()),
        ),
        UploadOutcome::Refused(e) => Err(
            ("upload failed: ".to_owned().concat(e.as_str()), att.path.clone()),
        ),
        UploadOutcome::Failed(e) => Err(
            ("upload error: ".to_owned().concat(e.as_str()), att.path.clone()),
        ),
        UploadOutcome::Uploaded(p) => {
            let mut p = p;
            if same(att.mime, "image/gif") {
                let flags = match p.flags {
                    Some(f) => f,
                    None => 0,
                };
                p.flags = Some(flags | 8);
            }
            Ok(p)
        },
    }
}

/// The place of the first upload that did not succeed; the number of uploads if
/// all did.
pub open spec fn first_failure(outcomes: Seq<UploadOutcome>) -> int
    decreases outcomes.len(),
{
    if outcomes.len() == 0 {
        0
    } else if !(outcomes[0] is Uploaded) {
        0
    } else {
        1 + first_failure(outcomes.drop_first())
    }
}

proof fn lemma_first_failure(outcomes: Seq<UploadOutcome>, i: int)
    requires
        0 <= i <= outcomes.len(),
        forall|j: int| 0 <= j < i ==> (#[trigger] outcomes[j]) is Uploaded,
        i < outcomes.len() ==> !(outcomes[i] is Uploaded),
    ensures
        first_failure(outcomes) == i,
    decreases outcomes.len(),
{
    if i > 0 {
        let rest = outcomes.drop_first();
        assert forall|j: int| 0 <= j < i - 1 implies (#[trigger] rest[j]) is Uploaded by {
            assert(rest[j] == outcomes[j + 1]);
        }
        lemma_first_failure(rest, i - 1);
    }
}

/// The pointers to the staged files, given how their uploads went one by one. If
/// one did not succeed: a message and the path of the first such file.
pub fn upload_staged_attachments(
    staged: &Vec<StagedAttachment>,
    outcomes: Vec<UploadOutcome>,
) -> (r: Result<Vec<AttachmentPointer>, (String, String)>)
    requires
        outcomes@.len() <= staged@.len(),
        first_failure(outcomes@) < outcomes@.len() || outcomes@.len() == staged@.len(),
    ensures
        r is Ok <==> first_failure(outcomes@) == outcomes@.len(),
        r matches Ok(pointers) ==> {
            &&& pointers@.len() == staged@.len()
            &&& forall|i: int|
                0 <= i < staged@.len() ==> is_marked(
                    #[trigger] pointers@[i],
                    outcomes@[i]->Uploaded_0,
                    staged@[i].mime@ == "image/gif"@,
                )
        },
        r matches Err(e) ==> {
            let i = first_failure(outcomes@);
            e.0@ == upload_error(staged@[i].path@, outcomes@[i]) && e.1@ == staged@[i].path@
        },
{
    let ghost all = outcomes@;
    let mut rest = outcomes;
    let n = rest.len();
    let mut pointers: Vec<AttachmentPointer> = Vec::new();
    let mut i: usize = 0;
    while i < n
        invariant
            all == outcomes@,
            i <= n == rest@.len() == all.len(),
            n <= staged@.len(),
            forall|j: int| i <= j < n ==> (#[trigger] rest@[j]) == all[j],
            forall|j: int| 0 <= j < i ==> (#[trigger] all[j]) is Uploaded,
            pointers@.len() == i,
            forall|j: int|
                0 <= j < i ==> is_marked(
                    #[trigger] pointers@[j],
                    all[j]->Uploaded_0,
                    staged@[j].mime@ == "image/gif"@,
                ),
        decreases n - i,
    {
        let mut outcome = UploadOutcome::Failed(String::new());
        std::mem::swap(&mut rest[i], &mut outcome);
        proof {
            assert(outcome == all[i as int]);
        }
        match uploaded(&staged[i], outcome) {
            Ok(p) => {
                pointers.push(p);
            },
            Err(e) => {
                proof {
                    lemma_first_failure(all, i as int);
                }
                return Err(e);
            },
        }
        i += 1;
    }
    proof {
        lemma_first_failure(all, n as int);
    }
    Ok(pointers)
}

// ── Downloads ────────────────────────────────────────────────────────────────

/// The attachments of a message.
pub open spec fn attachments_of(content: Content) -> Seq<AttachmentPointer> {
    match data_message_of(content) {
        Some(msg) => msg.attachments@,
        None => Seq::empty(),
    }
}

/// The attachments of a message; `None` if it is no ordinary message.
pub fn message_attachments(content: &Content) -> (r: Option<&Vec<AttachmentPointer>>)
    ensures
        r is None ==> attachments_of(*content) == Seq::<AttachmentPointer>::empty(),
        r matches Some(v) ==> attachments_of(*content) == v@,
{
    match data_message(content) {
        Some(msg) => Some(&msg.attachments),
        None => None,
    }
}

/// A text with what cannot stand in a file name replaced.
pub open spec fn safe_name_of(s: Seq<char>) -> Seq<char> {
    s.map_values(
        |c: char|
            if c == '/' || c == '\\' || c == '\0' {
                '_'
            } else {
                c
            },
    )
}

/// A text with what cannot stand in a file name replaced.
pub fn safe_name(s: &str) -> (r: String)
    ensures
        r@ == safe_name_of(s@),
{
    let chars = chars_of(s);
    let n = chars.len();
    let mut out = String::new();
    let mut i: usize = 0;
    while i < n
        invariant
            i <= n == chars@.len(),
            out@ == safe_name_of(chars@).take(i as int),
        decreases n - i,
    {
        let c = chars[i];
        out.push(
            if c == '/' || c == '\\' || c == '\0' {
                '_'
            } else {
                c
            },
        );
        i += 1;
    }
    proof {
        assert(out@ == safe_name_of(chars@));
    }
    out
}

/// The name that an attachment is saved under: its own, else one with its number.
pub open spec fn filename_of(pointer: AttachmentPointer, index: nat) -> Seq<char> {
    if pointer.file_name is Some && pointer.file_name->0@.len() > 0 {
        safe_name_of(pointer.file_name->0@)
    } else {
        "attachment-"@ + decimal_of(index)
    }
}

/// The name that an attachment is saved under.
pub fn attachment_filename(pointer: &AttachmentPointer, index: usize) -> (r: String)
    ensures
        r@ == filename_of(*pointer, index as nat),
{
    if let Some(name) = &pointer.file_name {
        if !name.as_str().is_empty() {
            return safe_name(name.as_str());
        }
    }
    "attachment-".to_owned().concat(decimal(index as u64).as_str())
}

/// The directory that attachments are saved in: the one asked for, else one
/// named after the thread in the user's downloads.
pub fn resolve_download_dir(path_arg: &str, home: Option<&str>, thread_name: &str) -> (r: Result<
    String,
    String,
>)
    ensures
        r is Ok <==> path_arg@.len() > 0 || home is Some,
        r matches Ok(dir) ==> dir@ == (if path_arg@.len() > 0 {
            path_arg@
        } else {
            joined(joined(joined(home->0@, "Downloads"@), "sst"@), safe_name_of(thread_name@))
        }),
        r matches Err(e) ==> e@ == "$HOME not set"@,
{
    if !path_arg.is_empty() {
        return Ok(path_arg.to_owned());
    }
    match home {
        None => Err("$HOME not set".to_owned()),
        Some(home) => {
            proof {
                reveal_strlit("Downloads");
                reveal_strlit("sst");
            }
            let safe = safe_name(thread_name);
            let downloads = join_path(home, "Downloads");
            let dir = join_path(downloads.as_str(), "sst");
            Ok(join_path(dir.as_str(), safe.as_str()))
        },
    }
}

/// A file to save: an attachment of a message, by their places.
pub struct Download {
    pub filename: String,
    pub message: usize,
    pub attachment: usize,
    /// The number of the message among those with attachments.
    pub number: usize,
}

/// The contents of a file to save.
pub struct DownloadView {
    pub filename: Seq<char>,
    pub message: int,
    pub attachment: int,
    pub number: int,
}

impl View for Download {
    type V = DownloadView;

    open spec fn view(&self) -> DownloadView {
        DownloadView {
            filename: self.filename@,
            message: self.message as int,
            attachment: self.attachment as int,
            number: self.number as int,
        }
    }
}

/// The contents of a list of files to save.
pub open spec fn download_views(s: Seq<Download>) -> Seq<DownloadView> {
    s.map_values(|d: Download| d@)
}

/// The files of one message, whose names are numbered from `first` on.
pub open spec fn message_files(
    atts: Seq<AttachmentPointer>,
    message: int,
    first: int,
    number: int,
) -> Seq<DownloadView> {
    Seq::new(
        atts.len(),
        |i: int|
            DownloadView {
                filename: filename_of(atts[i], (first + i) as nat),
                message,
                attachment: i,
                number,
            },
    )
}

/// The number of messages with attachments.
pub open spec fn messages_with_files(messages: Seq<Content>) -> int
    decreases messages.len(),
{
    if messages.len() == 0 {
        0
    } else {
        messages_with_files(messages.drop_last()) + if attachments_of(messages.last()).len() > 0 {
            1int
        } else {
            0
        }
    }
}

/// All files of a thread; their names are numbered through.
pub open spec fn thread_files(messages: Seq<Content>) -> Seq<DownloadView>
    decreases messages.len(),
{
    if messages.len() == 0 {
        Seq::empty()
    } else {
        let before = thread_files(messages.drop_last());
        before + message_files(
            attachments_of(messages.last()),
            messages.len() - 1,
            before.len() as int,
            messages_with_files(messages),
        )
    }
}

fn push_files(
    out: &mut Vec<Download>,
    atts: &Vec<AttachmentPointer>,
    message: usize,
    number: usize,
)
    ensures
        download_views(final(out)@) == download_views(old(out)@) + message_files(
            atts@,
            message as int,
            old(out)@.len() as int,
            number as int,
        ),
{
    let n = atts.len();
    let ghost first = out@.len() as int;
    let ghost files = message_files(atts@, message as int, first, number as int);
    let mut i: usize = 0;
    proof {
        assert(download_views(out@) + files.take(0) == download_views(out@));
    }
    while i < n
        invariant
            i <= n == atts@.len(),
            first == old(out)@.len(),
            files == message_files(atts@, message as int, first, number as int),
            out@.len() == first + i,
            download_views(out@) == download_views(old(out)@) + files.take(i as int),
        decreases n - i,
    {
        let ghost before = out@;
        let d = Download {
            filename: attachment_filename(&atts[i], out.len()),
            message,
            attachment: i,
            number,
        };
        out.push(d);
        proof {
            assert(d@ == files[i as int]);
            assert(download_views(out@) == download_views(before).push(d@));
            assert(download_views(old(out)@) + files.take(i + 1) == (download_views(old(out)@)
                + files.take(i as int)).push(d@));
        }
        i += 1;
    }
    proof {
        assert(files.take(n as int) == files);
    }
}

/// The files of the message at a place; none if there is no such message.
pub open spec fn files_at(messages: Seq<Content>, index: int) -> Seq<DownloadView> {
    if 0 <= index < messages.len() {
        message_files(attachments_of(messages[index]), index, 0, 1)
    } else {
        Seq::empty()
    }
}

/// The files of the message at a place; none if there is no such message.
pub fn message_downloads(messages: &Vec<Content>, index: usize) -> (r: Vec<Download>)
    ensures
        download_views(r@) == files_at(messages@, index as int),
{
    let mut out: Vec<Download> = Vec::new();
    proof {
        assert(download_views(out@) == Seq::<DownloadView>::empty());
    }
    if index < messages.len() {
        match message_attachments(&messages[index]) {
            Some(atts) => push_files(&mut out, atts, index, 1),
            None => {
                proof {
                    assert(message_files(Seq::empty(), index as int, 0, 1) == Seq::<
                        DownloadView,
                    >::empty());
                }
            },
        }
        proof {
            let files = files_at(messages@, index as int);
            assert(Seq::<DownloadView>::empty() + files == files);
        }
    }
    out
}

/// All files of a thread, and the number of messages that have some.
pub fn thread_downloads(messages: &Vec<Content>) -> (r: (Vec<Download>, usize))
    ensures
        download_views(r.0@) == thread_files(messages@),
        r.1 == messages_with_files(messages@),
{
    let n = messages.len();
    let mut out: Vec<Download> = Vec::new();
    let mut number: usize = 0;
    let mut i: usize = 0;
    proof {
        assert(download_views(out@) == thread_files(messages@.take(0)));
    }
    while i < n
        invariant
            i <= n == messages@.len(),
            download_views(out@) == thread_files(messages@.take(i as int)),
            number == messages_with_files(messages@.take(i as int)),
            number <= i,
        decreases n - i,
    {
        proof {
            assert(messages@.take(i + 1).drop_last() == messages@.take(i as int));
        }
        let ghost before = thread_files(messages@.take(i as int));
        let mut has_files = false;
        if let Some(atts) = message_attachments(&messages[i]) {
            if atts.len() > 0 {
                has_files = true;
                number += 1;
                push_files(&mut out, atts, i, number);
            }
        }
        proof {
            if !has_files {
                let none = attachments_of(messages@[i as int]);
                assert(before + message_files(none, i as int, before.len() as int, number as int)
                    == before);
            }
        }
        i += 1;
    }
    proof {
        assert(messages@.take(n as int) == messages@);
    }
    (out, number)
}

/// A name that an attachment is saved under names a file in its directory: no
/// separator of directories stands in it.
pub proof fn law_saved_names_have_no_separator(pointer: AttachmentPointer, index: nat)
    ensures
        forall|i: int|
            0 <= i < filename_of(pointer, index).len() ==> {
                let c = #[trigger] filename_of(pointer, index)[i];
                c != '/' && c != '\\' && c != '\0'
            },
{
    reveal_strlit("attachment-");
    lemma_decimal_digits(index);
}

proof fn lemma_decimal_digits(n: nat)
    ensures
        forall|i: int|
            0 <= i < decimal_of(n).len() ==> '0' <= (#[trigger] decimal_of(n)[i]) <= '9',
    decreases n,
{
    assert('0' <= digit(n % 10) <= '9');
    if n >= 10 {
        lemma_decimal_digits(n / 10);
        let d = decimal_of(n);
        let rest = decimal_of(n / 10);
        assert forall|i: int| 0 <= i < d.len() implies '0' <= (#[trigger] d[i]) <= '9' by {
            if i < rest.len() {
                assert(d[i] == rest[i]);
            }
        }
    }
}

/// The size of a file is shown to the nearest unit: to the byte below a kilobyte, to
/// the kilobyte below a megabyte, and to a tenth above.
pub proof fn law_sizes_are_rounded(bytes: nat, k: nat)
    ensures
        bytes < 0x400 ==> size_text(bytes) == decimal_of(bytes) + " B"@,
        0x400 <= bytes < 0x10_0000 && -0x400 < 2 * (k * 0x400 - bytes) < 0x400 ==> size_text(bytes)
            == decimal_of(k) + " KB"@,
        0x10_0000 <= bytes < 0x4000_0000 && -0x10_0000 < 2 * (k * 0x10_0000 - bytes * 10)
            < 0x10_0000 ==> size_text(bytes) == decimal_of(k / 10) + "."@ + seq![digit(k % 10)]
            + " MB"@,
        0x4000_0000 <= bytes < 0x20_0000_0000_0000 && -0x4000_0000 < 2 * (k * 0x4000_0000 - bytes
            * 10) < 0x4000_0000 ==> size_text(bytes) == decimal_of(k / 10) + "."@ + seq![
            digit(k % 10),
        ] + " GB"@,
{
    if -0x400 < 2 * (k * 0x400 - bytes) < 0x400 {
        lemma_nearest(bytes, 0x400, k);
    }
    if -0x10_0000 < 2 * (k * 0x10_0000 - bytes * 10) < 0x10_0000 {
        lemma_nearest(bytes * 10, 0x10_0000, k);
    }
    if -0x4000_0000 < 2 * (k * 0x4000_0000 - bytes * 10) < 0x4000_0000 {
        lemma_nearest(bytes * 10, 0x4000_0000, k);
    }
    if bytes < 0x20_0000_0000_0000 {
        assert(double_unit(bytes) == 1);
        assert(nearest_double(bytes) == bytes);
    }
}

proof fn lemma_nearest(n: nat, d: nat, k: nat)
    requires
        d > 0,
        -(d as int) < 2 * (k * d - n) < d,
    ensures
        round_half_even(n, d) == k,
{
    let q = n / d;
    let r = n % d;
    assert(n == q * d + r && r < d) by (nonlinear_arith)
        requires
            d > 0,
            q == n / d,
            r == n % d,
    ;
    assert(k == q || k == q + 1) by (nonlinear_arith)
        requires
            n == q * d + r,
            0 <= r < d,
            -(d as int) < 2 * (k * d - n) < d,
    ;
    assert(k == q ==> k * d - n == -(r as int)) by (nonlinear_arith)
        requires
            n == q * d + r,
    ;
    assert(k == q + 1 ==> k * d - n == d - r) by (nonlinear_arith)
        requires
            n == q * d + r,
    ;
}

/// The extensions that are known differ from each other.
proof fn lemma_extensions()
    ensures
        "jpg"@.len() == 3,
        "jpg"@[0] == 'j',
        "jpg"@[1] == 'p',
        "jpg"@[2] == 'g',
        "jpeg"@.len() == 4,
        "jpeg"@[0] == 'j',
        "jpeg"@[1] == 'p',
        "jpeg"@[3] == 'g',
        "png"@.len() == 3,
        "png"@[0] == 'p',
        "png"@[1] == 'n',
        "png"@[2] == 'g',
        "gif"@.len() == 3,
        "gif"@[0] == 'g',
        "gif"@[1] == 'i',
        "gif"@[2] == 'f',
        "webp"@.len() == 4,
        "webp"@[0] == 'w',
        "webp"@[1] == 'e',
        "webp"@[3] == 'p',
        "heic"@.len() == 4,
        "heic"@[0] == 'h',
        "heic"@[1] == 'e',
        "heic"@[3] == 'c',
        "heif"@.len() == 4,
        "heif"@[0] == 'h',
        "heif"@[1] == 'e',
        "heif"@[3] == 'f',
        "mp4"@.len() == 3,
        "mp4"@[0] == 'm',
        "mp4"@[1] == 'p',
        "mp4"@[2] == '4',
        "mov"@.len() == 3,
        "mov"@[0] == 'm',
        "mov"@[1] == 'o',
        "mov"@[2] == 'v',
        "avi"@.len() == 3,
        "avi"@[0] == 'a',
        "avi"@[1] == 'v',
        "avi"@[2] == 'i',
        "webm"@.len() == 4,
        "webm"@[0] == 'w',
        "webm"@[1] == 'e',
        "webm"@[3] == 'm',
        "mkv"@.len() == 3,
        "mkv"@[0] == 'm',
        "mkv"@[1] == 'k',
        "mkv"@[2] == 'v',
        "mp3"@.len() == 3,
        "mp3"@[0] == 'm',
        "mp3"@[1] == 'p',
        "mp3"@[2] == '3',
        "m4a"@.len() == 3,
        "m4a"@[0] == 'm',
        "m4a"@[1] == '4',
        "m4a"@[2] == 'a',
        "ogg"@.len() == 3,
        "ogg"@[0] == 'o',
        "ogg"@[1] == 'g',
        "ogg"@[2] == 'g',
        "opus"@.len() == 4,
        "opus"@[0] == 'o',
        "opus"@[1] == 'p',
        "opus"@[3] == 's',
        "aac"@.len() == 3,
        "aac"@[0] == 'a',
        "aac"@[1] == 'a',
        "aac"@[2] == 'c',
        "flac"@.len() == 4,
        "flac"@[0] == 'f',
        "flac"@[1] == 'l',
        "flac"@[3] == 'c',
        "wav"@.len() == 3,
        "wav"@[0] == 'w',
        "wav"@[1] == 'a',
        "wav"@[2] == 'v',
        "pdf"@.len() == 3,
        "pdf"@[0] == 'p',
        "pdf"@[1] == 'd',
        "pdf"@[2] == 'f',
        "zip"@.len() == 3,
        "zip"@[0] == 'z',
        "zip"@[1] == 'i',
        "zip"@[2] == 'p',
        "tar"@.len() == 3,
        "tar"@[0] == 't',
        "tar"@[1] == 'a',
        "tar"@[2] == 'r',
        "gz"@.len() == 2,
        "gz"@[0] == 'g',
        "gz"@[1] == 'z',
        "bz2"@.len() == 3,
        "bz2"@[0] == 'b',
        "bz2"@[1] == 'z',
        "bz2"@[2] == '2',
{
    reveal_strlit("jpg");
    reveal_strlit("jpeg");
    reveal_strlit("png");
    reveal_strlit("gif");
    reveal_strlit("webp");
    reveal_strlit("heic");
    reveal_strlit("heif");
    reveal_strlit("mp4");
    reveal_strlit("mov");
    reveal_strlit("avi");
    reveal_strlit("webm");
    reveal_strlit("mkv");
    reveal_strlit("mp3");
    reveal_strlit("m4a");
    reveal_strlit("ogg");
    reveal_strlit("opus");
    reveal_strlit("aac");
    reveal_strlit("flac");
    reveal_strlit("wav");
    reveal_strlit("pdf");
    reveal_strlit("zip");
    reveal_strlit("tar");
    reveal_strlit("gz");
    reveal_strlit("bz2");
}

/// The media type of a file goes by its extension; one that is not known makes it a
/// stream of bytes.
pub proof fn law_media_types_of_extensions(ext: Seq<char>)
    ensures
        ext == "jpg"@ ==> mime_of_extension(ext) == "image/jpeg"@,
        ext == "jpeg"@ ==> mime_of_extension(ext) == "image/jpeg"@,
        ext == "png"@ ==> mime_of_extension(ext) == "image/png"@,
        ext == "gif"@ ==> mime_of_extension(ext) == "image/gif"@,
        ext == "webp"@ ==> mime_of_extension(ext) == "image/webp"@,
        ext == "heic"@ ==> mime_of_extension(ext) == "image/heic"@,
        ext == "heif"@ ==> mime_of_extension(ext) == "image/heic"@,
        ext == "mp4"@ ==> mime_of_extension(ext) == "video/mp4"@,
        ext == "mov"@ ==> mime_of_extension(ext) == "video/quicktime"@,
        ext == "avi"@ ==> mime_of_extension(ext) == "video/x-msvideo"@,
        ext == "webm"@ ==> mime_of_extension(ext) == "video/webm"@,
        ext == "mkv"@ ==> mime_of_extension(ext) == "video/x-matroska"@,
        ext == "mp3"@ ==> mime_of_extension(ext) == "audio/mpeg"@,
        ext == "m4a"@ ==> mime_of_extension(ext) == "audio/mp4"@,
        ext == "ogg"@ ==> mime_of_extension(ext) == "audio/ogg"@,
        ext == "opus"@ ==> mime_of_extension(ext) == "audio/opus"@,
        ext == "aac"@ ==> mime_of_extension(ext) == "audio/aac"@,
        ext == "flac"@ ==> mime_of_extension(ext) == "audio/flac"@,
        ext == "wav"@ ==> mime_of_extension(ext) == "audio/wav"@,
        ext == "pdf"@ ==> mime_of_extension(ext) == "application/pdf"@,
        ext == "zip"@ ==> mime_of_extension(ext) == "application/zip"@,
        ext == "tar"@ ==> mime_of_extension(ext) == "application/x-tar"@,
        ext == "gz"@ ==> mime_of_extension(ext) == "application/gzip"@,
        ext == "bz2"@ ==> mime_of_extension(ext) == "application/x-bzip2"@,
        ext != "jpg"@ && ext != "jpeg"@ && ext != "png"@ && ext != "gif"@ && ext != "webp"@
            && ext != "heic"@ && ext != "heif"@ && ext != "mp4"@ && ext != "mov"@ && ext !=
            "avi"@ && ext != "webm"@ && ext != "mkv"@ && ext != "mp3"@ && ext != "m4a"@ && ext
            != "ogg"@ && ext != "opus"@ && ext != "aac"@ && ext != "flac"@ && ext != "wav"@ &&
            ext != "pdf"@ && ext != "zip"@ && ext != "tar"@ && ext != "gz"@ && ext != "bz2"@ ==> mime_of_extension(ext)
            == "application/octet-stream"@,
{
    lemma_extensions();
}

/// The media type of a path is that of its extension in lower case; a path without
/// one is a stream of bytes.
pub proof fn law_media_type_goes_by_extension(path: Seq<char>)
    ensures
        extension_of(path) matches Some(e) ==> mime_of(path) == mime_of_extension(lower_of(e)),
        extension_of(path) is None ==> mime_of(path) == "application/octet-stream"@,
{
    lemma_extensions();
    law_media_types_of_extensions(Seq::empty());
}

/// The kind of a file goes by its media type: an animation, else by what stands before
/// the slash.
pub proof fn law_kinds_of_media_types(rest: Seq<char>)
    ensures
        kind_of("image/gif"@) == "gif"@,
        "image/"@ + rest != "image/gif"@ ==> kind_of("image/"@ + rest) == "image"@,
        kind_of("video/"@ + rest) == "video"@,
        kind_of("audio/"@ + rest) == "audio"@,
        kind_of("application/"@ + rest) == "file"@,
{
    reveal_strlit("image/gif");
    reveal_strlit("image/");
    reveal_strlit("video/");
    reveal_strlit("audio/");
    reveal_strlit("application/");
    assert(("image/"@ + rest).take(6) == "image/"@);
    let v = "video/"@ + rest;
    assert(v.take(6) == "video/"@);
    assert(v[0] == 'v');
    let a = "audio/"@ + rest;
    assert(a.take(6) == "audio/"@);
    assert(a[0] == 'a' && a[1] == 'u');
    let p = "application/"@ + rest;
    assert(p[0] == 'a' && p[1] == 'p');
    if "image/"@.is_prefix_of(v) || "image/"@.is_prefix_of(a) || "image/"@.is_prefix_of(p) {
        assert(v.take(6)[0] == v[0] && a.take(6)[0] == a[0] && p.take(6)[0] == p[0]);
    }
    if "video/"@.is_prefix_of(a) || "video/"@.is_prefix_of(p) {
        assert(a.take(6)[0] == a[0] && p.take(6)[0] == p[0]);
    }
    if "audio/"@.is_prefix_of(p) {
        assert(p.take(6)[1] == p[1]);
    }
}

/// An uploaded file keeps its name and its place; an animation gets the flag for one,
/// and keeps the others.
pub proof fn law_animations_are_flagged(
    after: AttachmentPointer,
    before: AttachmentPointer,
    gif: bool,
)
    requires
        is_marked(after, before, gif),
    ensures
        after.file_name == before.file_name,
        after.raw == before.raw,
        !gif ==> after.flags == before.flags,
        gif && before.flags is None ==> after.flags == Some(8u32),
        gif && before.flags is Some ==> after.flags == Some(before.flags->0 | 8u32),
{
    assert(0u32 | 8u32 == 8u32) by (bit_vector);
}

/// A failed upload says what failed: reading names the file, the service its cause.
pub proof fn law_failed_uploads_say_why(path: Seq<char>, outcome: UploadOutcome)
    ensures
        outcome matches UploadOutcome::Unreadable(e) ==> upload_error(path, outcome) == path + ": "@
            + e@,
        outcome matches UploadOutcome::Refused(e) ==> upload_error(path, outcome)
            == "upload failed: "@ + e@,
        outcome matches UploadOutcome::Failed(e) ==> upload_error(path, outcome)
            == "upload error: "@ + e@,
{
}

/// The first failure is the first file that was not uploaded: all before it were.
pub proof fn law_first_failure_is_the_first(outcomes: Seq<UploadOutcome>)
    ensures
        0 <= first_failure(outcomes) <= outcomes.len(),
        forall|i: int| 0 <= i < first_failure(outcomes) ==> (#[trigger] outcomes[i]) is Uploaded,
        first_failure(outcomes) < outcomes.len() ==> !(outcomes[first_failure(
            outcomes,
        )] is Uploaded),
    decreases outcomes.len(),
{
    if outcomes.len() > 0 && outcomes[0] is Uploaded {
        let rest = outcomes.drop_first();
        law_first_failure_is_the_first(rest);
        assert forall|i: int| 0 <= i < first_failure(outcomes) implies (
        #[trigger] outcomes[i]) is Uploaded by {
            if i > 0 {
                assert(rest[i - 1] == outcomes[i]);
            }
        }
    }
}

/// A name keeps all its characters but those that part directories.
pub proof fn law_safe_names_keep_the_rest(s: Seq<char>, i: int)
    requires
        0 <= i < s.len(),
    ensures
        safe_name_of(s).len() == s.len(),
        s[i] != '/' && s[i] != '\\' && s[i] != '\0' ==> safe_name_of(s)[i] == s[i],
        s[i] == '/' || s[i] == '\\' || s[i] == '\0' ==> safe_name_of(s)[i] == '_',
{
}

/// An attachment is saved under its own name, made safe, or under a number if it has
/// none.
pub proof fn law_attachments_are_saved_by_name(p: AttachmentPointer, index: nat)
    ensures
        p.file_name matches Some(n) ==> n@.len() > 0 ==> filename_of(p, index) == safe_name_of(n@),
        p.file_name is None || p.file_name->0@.len() == 0 ==> filename_of(p, index)
            == "attachment-"@ + decimal_of(index),
{
}

/// The attachments of a message are those of its own message, received or sent by
/// another device; nothing else has any.
pub proof fn law_attachments_belong_to_messages(c: Content)
    ensures
        data_message_of(c) matches Some(msg) ==> attachments_of(c) == msg.attachments@,
        data_message_of(c) is None ==> attachments_of(c).len() == 0,
{
}

/// The files of one message: each of its attachments, in order.
pub proof fn law_files_of_a_message(messages: Seq<Content>, i: int, k: int)
    requires
        0 <= i < messages.len(),
        0 <= k < attachments_of(messages[i]).len(),
    ensures
        files_at(messages, i).len() == attachments_of(messages[i]).len(),
        files_at(messages, i)[k] == (DownloadView {
            filename: filename_of(attachments_of(messages[i])[k], k as nat),
            message: i,
            attachment: k,
            number: 1,
        }),
        files_at(messages, messages.len() as int).len() == 0,
{
}

/// The files of a chat: each attachment of each message, in order, and numbered
/// through; beside each stands the number of its message among those with files. So
/// the files of a longer chat begin with those of a shorter one.
pub proof fn law_files_of_a_chat(messages: Seq<Content>, m: Content, k: int)
    requires
        0 <= k < attachments_of(m).len(),
    ensures
        ({
            let before = thread_files(messages);
            let after = thread_files(messages.push(m));
            &&& after.len() == before.len() + attachments_of(m).len()
            &&& after.take(before.len() as int) == before
            &&& after[before.len() + k] == (DownloadView {
                filename: filename_of(attachments_of(m)[k], (before.len() + k) as nat),
                message: messages.len() as int,
                attachment: k,
                number: messages_with_files(messages) + 1,
            })
            &&& messages_with_files(messages.push(m)) == messages_with_files(messages) + 1
        }),
{
    assert(messages.push(m).drop_last() == messages);
    let before = thread_files(messages);
    assert(thread_files(messages.push(m)).take(before.len() as int) == before);
}

/// A message without attachments adds no file; an empty chat has none.
pub proof fn law_no_files_without_attachments(messages: Seq<Content>, m: Content)
    requires
        attachments_of(m).len() == 0,
    ensures
        thread_files(messages.push(m)) == thread_files(messages),
        messages_with_files(messages.push(m)) == messages_with_files(messages),
        thread_files(Seq::<Content>::empty()).len() == 0,
        messages_with_files(Seq::<Content>::empty()) == 0,
{
    assert(messages.push(m).drop_last() == messages);
    assert(thread_files(messages.push(m)) == thread_files(messages));
}

} // verus!
