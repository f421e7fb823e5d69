//! Downloading source tarballs.

use vstd::prelude::*;
use vstd::slice::slice_subrange;
use vstd::string::StringExecFns;

use crate::outside::{
    continues, decoder_input, decoder_over, decoder_reads, failed, from_utf8_lossy, given,
    gunzipped, lossy_text, reply, unzip_into, unzip_read,
};
use crate::words::{decimal, numeral};

verus! {

/// How often a download is tried.
pub const MAX_ATTEMPTS: u64 = 5;

/// How many seconds pass after a failed attempt.
pub const RETRY_SECONDS: u64 = 2;

/// How many bytes of a reply are read at most.
pub const MAX_BODY_BYTES: u64 = 512 * 1024 * 1024;

/// What became of one attempt.
#[derive(Debug)]
pub enum Reply {
    /// The reply's body was read.
    Body(Vec<u8>),
    /// There was a reply, but reading its body failed with this error.
    ReadFailed(String),
    /// The request failed with this error.
    CallFailed(String),
}

/// The model of a [`Reply`].
pub enum ReplyView {
    Body(Seq<u8>),
    ReadFailed(Seq<char>),
    CallFailed(Seq<char>),
}

impl View for Reply {
    type V = ReplyView;

    open spec fn view(&self) -> ReplyView {
        match *self {
            Reply::Body(bytes) => ReplyView::Body(bytes@),
            Reply::ReadFailed(error) => ReplyView::ReadFailed(error@),
            Reply::CallFailed(error) => ReplyView::CallFailed(error@),
        }
    }
}

/// What comes after an attempt.
#[derive(Debug)]
pub enum AfterReply {
    /// The download is over, and this is what came.
    Done(Vec<u8>),
    /// Let this many seconds pass.
    Wait(u64),
}

/// What comes after waiting.
#[derive(Debug)]
pub enum AfterWait {
    /// Make the request again.
    Call,
    /// Fail with this report.
    GiveUp(String),
}

/// The note that is kept of a failed attempt.
pub open spec fn attempt_note(attempt: nat, reply: ReplyView) -> Option<Seq<char>> {
    match reply {
        ReplyView::Body(_) => None,
        ReplyView::ReadFailed(error) => Some(
            "attempt "@ + numeral(attempt) + ": read body: "@ + error,
        ),
        ReplyView::CallFailed(error) => Some("attempt "@ + numeral(attempt) + ": ureq: "@ + error),
    }
}

/// The report of a download that failed for good.
pub open spec fn give_up_report(url: Seq<char>, note: Option<Seq<char>>) -> Seq<char> {
    "rnp-src: failed to download "@ + url + " after 5 attempts: "@ + (match note {
        Some(note) => note,
        None => "unknown error"@,
    })
}

/// A download in progress.
#[derive(Debug)]
pub struct Download {
    url: String,
    attempt: u64,
    note: Option<String>,
}

impl Download {
    /// What is downloaded.
    pub closed spec fn url(&self) -> Seq<char> {
        self.url@
    }

    /// The number of the attempt that is under way or was made last.
    pub closed spec fn attempt(&self) -> nat {
        self.attempt as nat
    }

    /// The note on the last failed attempt.
    pub closed spec fn note(&self) -> Option<Seq<char>> {
        crate::host::optional_text(self.note)
    }

    /// Attempts are counted from one to the limit.
    pub open spec fn wf(&self) -> bool {
        1 <= self.attempt() <= MAX_ATTEMPTS
    }

    /// What the download comes to where `replies` says what becomes of each attempt.
    pub open spec fn outcome(&self, replies: spec_fn(nat) -> ReplyView) -> Result<
        Seq<u8>,
        Seq<char>,
    > {
        downloaded(self.url(), self.attempt(), replies)
    }

    /// A download whose first attempt is to be made.
    pub fn new(url: &str) -> (download: Download)
        ensures
            download.wf(),
            download.url() == url@,
            download.attempt() == 1,
            download.note() is None,
    {
        Download { url: url.to_string(), attempt: 1, note: None }
    }

    /// The number of the attempt that is under way or was made last.
    pub fn attempt_number(&self) -> (number: u64)
        ensures
            number == self.attempt(),
    {
        self.attempt
    }

    /// Takes in what became of an attempt. A body ends the download; a failure is
    /// noted, and time is to pass.
    pub fn replied(&mut self, reply: Reply) -> (next: AfterReply)
        requires
            old(self).wf(),
        ensures
            final(self).wf(),
            final(self).url() == old(self).url(),
            final(self).attempt() == old(self).attempt(),
            final(self).note() == attempt_note(old(self).attempt(), reply@),
            match next {
                AfterReply::Done(bytes) => reply@ == ReplyView::Body(bytes@),
                AfterReply::Wait(seconds) => !(reply is Body) && seconds == RETRY_SECONDS,
            },
            forall|replies: spec_fn(nat) -> ReplyView|
                replies(old(self).attempt()) == reply@ ==> (match next {
                    AfterReply::Done(bytes) => #[trigger] old(self).outcome(replies) == Ok::<
                        Seq<u8>,
                        Seq<char>,
                    >(bytes@),
                    AfterReply::Wait(_) => final(self).outcome(replies) == old(self).outcome(
                        replies,
                    ),
                }),
    {
        match reply {
            Reply::Body(bytes) => {
                self.note = None;
                AfterReply::Done(bytes)
            },
            Reply::ReadFailed(error) => {
                let mut note: String = "attempt ".to_string();
                note.append(decimal(self.attempt).as_str());
                note.append(": read body: ");
                note.append(error.as_str());
                self.note = Some(note);
                AfterReply::Wait(RETRY_SECONDS)
            },
            Reply::CallFailed(error) => {
                let mut note: String = "attempt ".to_string();
                note.append(decimal(self.attempt).as_str());
                note.append(": ureq: ");
                note.append(error.as_str());
                self.note = Some(note);
                AfterReply::Wait(RETRY_SECONDS)
            },
        }
    }

    /// Goes on after a failed attempt: to the next one, or, after the last, to the
    /// report.
    pub fn waited(&mut self) -> (next: AfterWait)
        requires
            old(self).wf(),
        ensures
            final(self).wf(),
            final(self).url() == old(self).url(),
            final(self).note() == old(self).note(),
            match next {
                AfterWait::Call => old(self).attempt() < MAX_ATTEMPTS && final(self).attempt()
                    == old(self).attempt() + 1,
                AfterWait::GiveUp(report) => old(self).attempt() == MAX_ATTEMPTS
                    && final(self).attempt() == old(self).attempt() && report@ == give_up_report(
                    old(self).url(),
                    old(self).note(),
                ),
            },
            forall|replies: spec_fn(nat) -> ReplyView|
                !(replies(old(self).attempt()) is Body) && old(self).note() == attempt_note(
                    old(self).attempt(),
                    replies(old(self).attempt()),
                ) ==> (match next {
                    AfterWait::Call => #[trigger] final(self).outcome(replies) == old(
                        self).outcome(replies),
                    AfterWait::GiveUp(report) => old(self).outcome(replies) == Err::<
                        Seq<u8>,
                        Seq<char>,
                    >(report@),
                }),
    {
        if self.attempt < MAX_ATTEMPTS {
            self.attempt = self.attempt + 1;
            AfterWait::Call
        } else {
            let mut report: String = "rnp-src: failed to download ".to_string();
            report.append(self.url.as_str());
            report.append(" after 5 attempts: ");
            match &self.note {
                Some(note) => {
                    report.append(note.as_str());
                },
                None => {
                    report.append("unknown error");
                },
            }
            AfterWait::GiveUp(report)
        }
    }
}

/// What a download comes to from attempt `attempt` on, where `replies` says what
/// becomes of each attempt: the body, or the report.
pub open spec fn downloaded(
    url: Seq<char>,
    attempt: nat,
    replies: spec_fn(nat) -> ReplyView,
) -> Result<Seq<u8>, Seq<char>>
    decreases MAX_ATTEMPTS - attempt,
{
    match replies(attempt) {
        ReplyView::Body(bytes) => Ok(bytes),
        reply => if attempt < MAX_ATTEMPTS {
            downloaded(url, attempt + 1, replies)
        } else {
            Err(give_up_report(url, attempt_note(attempt, reply)))
        },
    }
}

/// A download comes to the first body among its attempts.
pub proof fn law_download_takes_the_first_body(
    url: Seq<char>,
    replies: spec_fn(nat) -> ReplyView,
    first: nat,
    bytes: Seq<u8>,
)
    requires
        1 <= first <= MAX_ATTEMPTS,
        replies(first) == ReplyView::Body(bytes),
        forall|earlier: nat| 1 <= earlier < first ==> !(#[trigger] replies(earlier) is Body),
    ensures
        downloaded(url, 1, replies) == Ok::<Seq<u8>, Seq<char>>(bytes),
{
    lemma_takes_first(url, 1, replies, first, bytes);
}

proof fn lemma_takes_first(
    url: Seq<char>,
    attempt: nat,
    replies: spec_fn(nat) -> ReplyView,
    first: nat,
    bytes: Seq<u8>,
)
    requires
        1 <= attempt <= first <= MAX_ATTEMPTS,
        replies(first) == ReplyView::Body(bytes),
        forall|earlier: nat| 1 <= earlier < first ==> !(#[trigger] replies(earlier) is Body),
    ensures
        downloaded(url, attempt, replies) == Ok::<Seq<u8>, Seq<char>>(bytes),
    decreases first - attempt,
{
    if attempt < first {
        lemma_takes_first(url, attempt + 1, replies, first, bytes);
    }
}

/// A download gives up after its last attempt where none brings a body, and reports
/// the last failure.
pub proof fn law_download_gives_up_after_the_last(
    url: Seq<char>,
    replies: spec_fn(nat) -> ReplyView,
)
    requires
        forall|attempt: nat|
            1 <= attempt <= MAX_ATTEMPTS ==> !(#[trigger] replies(attempt) is Body),
    ensures
        downloaded(url, 1, replies) == Err::<Seq<u8>, Seq<char>>(
            give_up_report(url, attempt_note(MAX_ATTEMPTS as nat, replies(MAX_ATTEMPTS as nat))),
        ),
{
    lemma_gives_up(url, 1, replies);
}

proof fn lemma_gives_up(url: Seq<char>, attempt: nat, replies: spec_fn(nat) -> ReplyView)
    requires
        1 <= attempt <= MAX_ATTEMPTS,
        forall|attempt: nat|
            1 <= attempt <= MAX_ATTEMPTS ==> !(#[trigger] replies(attempt) is Body),
    ensures
        downloaded(url, attempt, replies) == Err::<Seq<u8>, Seq<char>>(
            give_up_report(url, attempt_note(MAX_ATTEMPTS as nat, replies(MAX_ATTEMPTS as nat))),
        ),
    decreases MAX_ATTEMPTS - attempt,
{
    if attempt < MAX_ATTEMPTS {
        lemma_gives_up(url, attempt + 1, replies);
    }
}

/// `bytes` start with the two bytes that every gzip file starts with.
pub open spec fn is_gzip(bytes: Seq<u8>) -> bool {
    bytes.len() >= 2 && bytes[0] == 0x1f && bytes[1] == 0x8b
}

/// The report of a download of `length` bytes that start with `snippet` and are no
/// gzip file.
pub open spec fn not_gzip_report(url: Seq<char>, length: nat, snippet: Seq<char>) -> Seq<char> {
    "rnp-src: "@ + url + " did not return a gzip tarball (first "@ + numeral(length)
        + " bytes): "@ + snippet
}

/// The first two hundred bytes, or all where there are fewer.
pub open spec fn head_of(bytes: Seq<u8>) -> Seq<u8> {
    if bytes.len() < 200 {
        bytes
    } else {
        bytes.take(200)
    }
}

/// A gzip file that is being unzipped, read by read.
#[derive(Debug)]
pub struct Unzipping {
    decoder: flate2::read::GzDecoder<std::io::Cursor<Vec<u8>>>,
}

/// No read failed so far, and what they gave is the start of the content, where the
/// file has one.
pub open spec fn on_track(file: Seq<u8>, reads: Seq<nat>) -> bool {
    &&& !failed(file, reads)
    &&& match gunzipped(file) {
        Some((content, _)) => given(file, reads).is_prefix_of(content),
        None => true,
    }
}

impl Unzipping {
    /// The bytes of the gzip file.
    pub closed spec fn file(&self) -> Seq<u8> {
        decoder_input(self.decoder)
    }

    /// The lengths of the buffers that were to be filled so far, in order.
    pub closed spec fn reads(&self) -> Seq<nat> {
        decoder_reads(self.decoder)
    }

    /// What was unzipped so far.
    pub open spec fn unzipped(&self) -> Seq<u8> {
        given(self.file(), self.reads())
    }

    /// Unzips more, into `buffer`: how many bytes, or what went wrong. The content of a
    /// file whose compressed data is sound comes out whole, however it is read, before
    /// its end is reported or a wrong checksum is.
    pub fn read(&mut self, buffer: &mut [u8]) -> (result: Result<usize, String>)
        ensures
            final(self).file() == old(self).file(),
            final(self).reads() == old(self).reads().push(old(buffer)@.len()),
            final(buffer)@.len() == old(buffer)@.len(),
            result matches Ok(count) ==> count <= old(buffer)@.len(),
            reply(result, final(buffer)@) == unzip_read(final(self).file(), final(self).reads()),
            final(self).unzipped() == old(self).unzipped() + (match result {
                Ok(count) => final(buffer)@.take(count as int),
                Err(_) => seq![],
            }),
            on_track(old(self).file(), old(self).reads()) ==> match gunzipped(old(self).file()) {
                Some((content, fault)) => {
                    &&& continues(
                        content,
                        fault,
                        old(self).unzipped().len() as int,
                        old(buffer)@.len(),
                        reply(result, final(buffer)@),
                    )
                    &&& result is Err || (result == Ok::<usize, String>(0) && old(buffer)@.len()
                        > 0) ==> final(self).unzipped() == content
                },
                None => true,
            },
            on_track(old(self).file(), old(self).reads()) && result is Ok ==> on_track(
                final(self).file(),
                final(self).reads(),
            ),
    {
        let ghost before = self.reads();
        let result: Result<usize, String> = unzip_into(&mut self.decoder, buffer);
        proof {
            assert(self.reads().drop_last() =~= before);
        }
        result
    }
}

/// The report of a download that is no gzip file.
pub fn not_gzip(url: &str, length: usize, snippet: &str) -> (report: String)
    ensures
        report@ == not_gzip_report(url@, length as nat, snippet@),
{
    let mut report: String = "rnp-src: ".to_string();
    report.append(url);
    report.append(" did not return a gzip tarball (first ");
    report.append(decimal(length as u64).as_str());
    report.append(" bytes): ");
    report.append(snippet);
    report
}

/// Starts to unzip what was downloaded from `url`. What does not start as a gzip file
/// is refused.
pub fn unzip_tarball(url: &str, body: Vec<u8>) -> (result: Result<Unzipping, String>)
    ensures
        result is Ok <==> body@.len() >= 2 && body@[0] == 0x1f && body@[1] == 0x8b,
        match result {
            Ok(unzipping) => {
                &&& is_gzip(body@)
                &&& unzipping.file() == body@
                &&& unzipping.reads() == Seq::<nat>::empty()
                &&& unzipping.unzipped() == Seq::<u8>::empty()
                &&& on_track(unzipping.file(), unzipping.reads())
            },
            Err(report) => !is_gzip(body@) && report@ == not_gzip_report(
                url@,
                body@.len(),
                lossy_text(head_of(body@)),
            ),
        },
{
    if body.len() < 2 || body[0] != 0x1f || body[1] != 0x8b {
        let length: usize = body.len();
        let shown: usize = if length < 200 {
            length
        } else {
            200
        };
        let head: &[u8] = slice_subrange(body.as_slice(), 0, shown);
        assert(head@ =~= head_of(body@));
        let snippet: String = from_utf8_lossy(head);
        Err(not_gzip(url, length, snippet.as_str()))
    } else {
        Ok(Unzipping { decoder: decoder_over(body) })
    }
}

/// A gzip file is told by its first two bytes, whatever the others are.
pub proof fn law_gzip_is_told_by_two_bytes(bytes: Seq<u8>)
    ensures
        is_gzip(bytes) <==> bytes.len() >= 2 && bytes[0] == 0x1f && bytes[1] == 0x8b,
{
}

/// What follows the first two bytes does not matter: two files that start with the same
/// two bytes are both gzip files or both not.
pub proof fn law_other_bytes_do_not_matter(first: u8, second: u8, a: Seq<u8>, b: Seq<u8>)
    ensures
        is_gzip(seq![first, second] + a) == is_gzip(seq![first, second] + b),
        is_gzip(seq![first, second] + a) <==> first == 0x1f && second == 0x8b,
{
    assert((seq![first, second] + a)[0] == first && (seq![first, second] + a)[1] == second);
    assert((seq![first, second] + b)[0] == first && (seq![first, second] + b)[1] == second);
}

/// What is shown of a refused body is its start: all of it up to two hundred bytes, and
/// never more.
pub proof fn law_start_of_the_body_is_shown(bytes: Seq<u8>)
    ensures
        head_of(bytes).is_prefix_of(bytes),
        head_of(bytes).len() <= 200,
        bytes.len() <= 200 ==> head_of(bytes) == bytes,
        bytes.len() > 200 ==> head_of(bytes).len() == 200,
{
    if bytes.len() >= 200 {
        assert(bytes.subrange(0, 200) =~= bytes.take(200));
        assert(bytes.len() == 200 ==> bytes.take(200) =~= bytes);
    } else {
        assert(bytes.subrange(0, bytes.len() as int) =~= bytes);
    }
}

/// The report on a refused body holds, in this order and with fixed words around them,
/// the address, the number of bytes in decimal digits, and the start of the body.
pub proof fn law_refusal_names_address_length_and_start(
    url: Seq<char>,
    length: nat,
    snippet: Seq<char>,
)
    ensures
        ({
            let report = not_gzip_report(url, length, snippet);
            let front = "rnp-src: "@ + url + " did not return a gzip tarball (first "@;
            let rest = report.skip(front.len() as int);
            let digits = rest.take(rest.len() - snippet.len() - " bytes): "@.len());
            &&& report.len() >= front.len() + " bytes): "@.len() + snippet.len()
            &&& report.take(front.len() as int) == front
            &&& crate::words::number_of(digits) == length
            &&& forall|i: int| 0 <= i < digits.len() ==> '0' <= #[trigger] digits[i] <= '9'
            &&& rest.skip(digits.len() as int) == " bytes): "@ + snippet
        }),
{
    let report = not_gzip_report(url, length, snippet);
    let front = "rnp-src: "@ + url + " did not return a gzip tarball (first "@;
    let end = " bytes): "@ + snippet;
    crate::words::law_numerals_stand_for_their_numbers(length);
    assert(report =~= front + (numeral(length) + end));
    let rest = report.skip(front.len() as int);
    assert(report.take(front.len() as int) =~= front);
    assert(rest =~= numeral(length) + end);
    assert(rest.take(rest.len() - snippet.len() - " bytes): "@.len()) =~= numeral(length));
    assert(rest.skip(numeral(length).len() as int) =~= end);
}

/// A failed attempt is noted with its number and its error, word for word, and with what
/// failed: the request or the reading. An attempt that brought a body is not.
pub proof fn law_failed_attempts_are_noted(attempt: nat, reply: ReplyView)
    ensures
        attempt_note(attempt, reply) is None <==> reply is Body,
        reply matches ReplyView::ReadFailed(error) ==> attempt_note(attempt, reply) == Some(
            "attempt "@ + numeral(attempt) + ": read body: "@ + error,
        ),
        reply matches ReplyView::CallFailed(error) ==> attempt_note(attempt, reply) == Some(
            "attempt "@ + numeral(attempt) + ": ureq: "@ + error,
        ),
{
}

/// The report on a download that failed for good starts with the address and ends with
/// the note on the last attempt.
pub proof fn law_giving_up_names_address_and_note(url: Seq<char>, note: Seq<char>)
    ensures
        ({
            let report = give_up_report(url, Some(note));
            let front = "rnp-src: failed to download "@ + url + " after 5 attempts: "@;
            &&& report.take(front.len() as int) == front
            &&& report.skip(front.len() as int) == note
        }),
{
    let report = give_up_report(url, Some(note));
    let front = "rnp-src: failed to download "@ + url + " after 5 attempts: "@;
    assert(report =~= front + note);
    assert(report.take(front.len() as int) =~= front);
    assert(report.skip(front.len() as int) =~= note);
}

} // verus!
