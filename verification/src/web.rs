use vstd::prelude::*;

use crate::book_info::{self, BookInfo, BookInfoView, ContentParser};
use crate::chapters::{self, parse_chapter_data};
use crate::json::{
    self, encode_value, json_from_value, parse_json_bytes, parse_value_bytes, Json, JsonView,
};
use crate::text::{self, is_all_digits, joined};

verus! {

/// How the site is asked.
#[derive(Debug, Clone)]
pub struct FanqieWebConfig {
    /// Seconds until a request is given up.
    pub request_timeout: u64,
    pub max_retries: usize,
    pub insecure_tls: bool,
    pub user_agent: String,
    /// The folder in which directories are kept, where it is not the usual one.
    pub cache_dir: Option<String>,
}

/// The browser that requests come from unless another is set.
pub const USER_AGENT: &'static str = "Mozilla/5.0 (Windows NT 10.0; Win64; x64) AppleWebKit/537.36 (KHTML, like Gecko) Chrome/120 Safari/537.36";

impl Default for FanqieWebConfig {
    fn default() -> (r: Self)
        ensures
            r.request_timeout == 15,
            r.max_retries == 3,
            r.insecure_tls == false,
            r.user_agent@ == USER_AGENT@,
            r.cache_dir is None,
    {
        FanqieWebConfig {
            request_timeout: 15,
            max_retries: 3,
            insecure_tls: false,
            user_agent: USER_AGENT.to_owned(),
            cache_dir: None,
        }
    }
}

/// How the site is asked for a plan: with a timeout and retries of at least one.
pub fn plan_web_config(request_timeout: u64, max_retries: u32) -> (r: FanqieWebConfig)
    ensures
        r.request_timeout == if request_timeout == 0 { 1 } else { request_timeout },
        r.max_retries == if max_retries == 0 { 1 } else { max_retries },
        r.insecure_tls == false,
        r.user_agent@ == USER_AGENT@,
        r.cache_dir is None,
{
    FanqieWebConfig {
        request_timeout: if request_timeout == 0 {
            1
        } else {
            request_timeout
        },
        max_retries: if max_retries == 0 {
            1
        } else {
            max_retries as usize
        },
        ..FanqieWebConfig::default()
    }
}

/// How the site is asked for a cover: with a timeout of at least one second.
pub fn cover_web_config(request_timeout: u64) -> (r: FanqieWebConfig)
    ensures
        r.request_timeout == if request_timeout == 0 { 1 } else { request_timeout },
        r.max_retries == 2,
        r.insecure_tls == false,
        r.user_agent@ == USER_AGENT@,
        r.cache_dir is None,
{
    FanqieWebConfig { max_retries: 2, ..plan_web_config(request_timeout, 2) }
}

/// The address of the page of a book.
pub open spec fn page_address(book_id: Seq<char>) -> Seq<char> {
    "https://fanqienovel.com/page/"@ + book_id
}

/// The address of the page of a book.
pub fn page_url(book_id: &str) -> (r: String)
    ensures
        r@ == page_address(book_id@),
{
    joined("https://fanqienovel.com/page/", book_id)
}

/// The address where a book is read.
pub open spec fn reader_address(book_id: Seq<char>) -> Seq<char> {
    "https://fanqienovel.com/reader/"@ + book_id
}

/// The address of the directory of a book.
pub fn directory_url(book_id: &str) -> (r: String)
    ensures
        r@ == "https://fanqienovel.com/api/reader/directory/detail?bookId="@ + book_id@,
{
    joined("https://fanqienovel.com/api/reader/directory/detail?bookId=", book_id)
}

/// A text that can be the value of a header: no control character but the tab.
pub open spec fn is_header_text(s: Seq<char>) -> bool {
    forall|i: int| 0 <= i < s.len() ==> is_header_char(#[trigger] s[i])
}

/// A tab, or a character that is no ASCII control character.
pub open spec fn is_header_char(c: char) -> bool {
    c == '\t' || (c as u32 >= 32 && c as u32 != 127)
}

/// `reqwest::header::HeaderValue::from_str` accepts a text whose bytes are tabs or
/// no ASCII control characters, and no other; every byte of a character beyond
/// ASCII is accepted.
#[verifier::external_body]
fn is_header_value(s: &str) -> (r: bool)
    ensures
        r == is_header_text(s@),
{
    reqwest::header::HeaderValue::from_str(s).is_ok()
}

/// The texts of a list of headers.
pub open spec fn headers(v: Seq<(String, String)>) -> Seq<(Seq<char>, Seq<char>)> {
    v.map_values(|h: (String, String)| (h.0@, h.1@))
}

/// The browser that a request names: the one that is set, where it can stand in a
/// header.
pub open spec fn agent_of(user_agent: Seq<char>) -> Seq<char> {
    if is_header_text(user_agent) {
        user_agent
    } else {
        "Mozilla/5.0"@
    }
}

/// The browser that a request names can stand in a header, and the one that is set
/// from the start is named as it is.
pub proof fn lemma_agent_of(user_agent: Seq<char>)
    ensures
        is_header_text(agent_of(user_agent)),
        agent_of(USER_AGENT@) == USER_AGENT@,
{
    reveal_strlit("Mozilla/5.0");
    reveal_strlit(
        "Mozilla/5.0 (Windows NT 10.0; Win64; x64) AppleWebKit/537.36 (KHTML, like Gecko) Chrome/120 Safari/537.36",
    );
}

fn header(name: &str, value: &str) -> (r: (String, String))
    ensures
        r.0@ == name@,
        r.1@ == value@,
{
    (name.to_owned(), value.to_owned())
}

/// The headers of every request.
pub fn default_headers() -> (r: Vec<(String, String)>)
    ensures
        headers(r@) == seq![("accept-encoding"@, "identity"@), ("connection"@, "keep-alive"@)],
{
    let r: Vec<(String, String)> = vec![
        header("accept-encoding", "identity"),
        header("connection", "keep-alive"),
    ];
    assert(headers(r@) =~= seq![("accept-encoding"@, "identity"@), ("connection"@, "keep-alive"@)]);
    r
}

impl FanqieWebConfig {
    fn agent(&self) -> (r: String)
        ensures
            r@ == agent_of(self.user_agent@),
    {
        if is_header_value(self.user_agent.as_str()) {
            self.user_agent.clone()
        } else {
            "Mozilla/5.0".to_owned()
        }
    }

    /// The headers of a request for a page.
    pub fn get_headers(&self) -> (r: Vec<(String, String)>)
        ensures
            headers(r@) == seq![
                ("accept"@, "text/html,application/xhtml+xml,application/xml;q=0.9,*/*;q=0.8"@),
                ("user-agent"@, agent_of(self.user_agent@)),
            ],
    {
        let agent = self.agent();
        let r: Vec<(String, String)> = vec![
            header("accept", "text/html,application/xhtml+xml,application/xml;q=0.9,*/*;q=0.8"),
            header("user-agent", agent.as_str()),
        ];
        assert(headers(r@) =~= seq![
            ("accept"@, "text/html,application/xhtml+xml,application/xml;q=0.9,*/*;q=0.8"@),
            ("user-agent"@, agent@),
        ]);
        r
    }

    /// The headers of a request for the directory of a book, which comes from the
    /// page of the book where its address can stand in a header.
    pub fn get_json_headers(&self, book_id: &str) -> (r: Vec<(String, String)>)
        ensures
            headers(r@) == seq![
                ("accept"@, "application/json, text/plain, */*"@),
                ("content-type"@, "application/json"@),
                ("user-agent"@, agent_of(self.user_agent@)),
            ] + if is_header_text(page_address(book_id@)) {
                seq![("referer"@, page_address(book_id@))]
            } else {
                Seq::empty()
            },
    {
        let agent = self.agent();
        let mut r: Vec<(String, String)> = vec![
            header("accept", "application/json, text/plain, */*"),
            header("content-type", "application/json"),
            header("user-agent", agent.as_str()),
        ];
        let ghost fixed = seq![
            ("accept"@, "application/json, text/plain, */*"@),
            ("content-type"@, "application/json"@),
            ("user-agent"@, agent@),
        ];
        assert(headers(r@) =~= fixed);
        let referer = page_url(book_id);
        if is_header_value(referer.as_str()) {
            r.push(header("referer", referer.as_str()));
            assert(headers(r@) =~= fixed + seq![("referer"@, referer@)]);
        } else {
            assert(fixed + Seq::<(Seq<char>, Seq<char>)>::empty() =~= fixed);
        }
        r
    }
}

/// A status that reports an error.
pub open spec fn is_error_status(status: u16) -> bool {
    400 <= status < 600
}

/// A status that reports success.
pub open spec fn is_success_status(status: u16) -> bool {
    200 <= status < 300
}

/// What came of a request for a page. The body is there where it was asked for
/// and could be read.
pub enum PageReply {
    Unsent,
    Answered { status: u16, body: Option<String> },
}

/// What is to be done about a book after the request for its page.
#[derive(Debug, PartialEq, Eq)]
pub enum BookInfoStep {
    /// Ask for the page at this address.
    FetchReader(String),
    Done(BookInfo),
}

/// Whether the body of the page of a book is to be read.
pub fn wants_page_body(status: u16) -> (r: bool)
    ensures
        r == !is_error_status(status),
        r <==> status < 400 || status >= 600,
{
    !(400 <= status && status < 600)
}

/// Whether the body of the page where a book is read is to be read.
pub fn wants_reader_body(status: u16) -> (r: bool)
    ensures
        r == is_success_status(status),
        r <==> 200 <= status < 300,
{
    200 <= status && status < 300
}

/// What is known after a body could be read, or could not.
pub open spec fn info_in_body(body: Option<String>) -> BookInfoView {
    match body {
        Some(html) => book_info::book_info_of(html@),
        None => book_info::nothing_known(),
    }
}

fn read_body(body: &Option<String>, book_id: &str) -> (r: BookInfo)
    ensures
        r@ == info_in_body(*body),
{
    match body {
        Some(html) => ContentParser::parse_book_info(html.as_str(), book_id),
        None => BookInfo::default(),
    }
}

/// What is known of a book that has no page is what the page where it is read tells,
/// where that request succeeds; a page that reports any other error tells nothing.
pub open spec fn info_outcome(page: PageReply, reader: PageReply) -> BookInfoView {
    match page {
        PageReply::Unsent => book_info::nothing_known(),
        PageReply::Answered { status, body } => if status == 404 {
            match reader {
                PageReply::Answered { status: s, body: Some(html) } if 200 <= s < 300 =>
                    book_info::book_info_of(html@),
                _ => book_info::nothing_known(),
            }
        } else {
            match body {
                Some(html) if !(400 <= status < 600) => book_info::book_info_of(html@),
                _ => book_info::nothing_known(),
            }
        },
    }
}

/// What is to be done after the request for the page of a book: where there is no
/// such page, the page where the book is read is asked for; where the request
/// failed, nothing is known.
pub fn after_page(book_id: &str, reply: &PageReply) -> (r: BookInfoStep)
    ensures
        match *reply {
            PageReply::Unsent => r matches BookInfoStep::Done(info) && info@
                == book_info::nothing_known(),
            PageReply::Answered { status, body } => if status == 404 {
                r matches BookInfoStep::FetchReader(url) && url@ == reader_address(book_id@)
            } else if is_error_status(status) {
                r matches BookInfoStep::Done(info) && info@ == book_info::nothing_known()
            } else {
                r matches BookInfoStep::Done(info) && info@ == info_in_body(body)
            },
        },
        forall|reader: PageReply|
            r matches BookInfoStep::Done(info) ==> info@ == #[trigger] info_outcome(*reply, reader),
        r is FetchReader <==> (*reply matches PageReply::Answered { status, .. } && status == 404),
        r matches BookInfoStep::FetchReader(url) ==> url@ == "https://fanqienovel.com/reader/"@
            + book_id@,
{
    match reply {
        PageReply::Unsent => BookInfoStep::Done(BookInfo::default()),
        PageReply::Answered { status, body } => {
            if *status == 404 {
                return BookInfoStep::FetchReader(
                    joined("https://fanqienovel.com/reader/", book_id),
                );
            }
            if !wants_page_body(*status) {
                return BookInfoStep::Done(BookInfo::default());
            }
            BookInfoStep::Done(read_body(body, book_id))
        },
    }
}

/// What is known after the request for the page where a book is read: nothing
/// unless it succeeded.
pub fn after_reader(book_id: &str, reply: &PageReply) -> (r: BookInfo)
    ensures
        r@ == match *reply {
            PageReply::Answered { status, body } => if is_success_status(status) {
                info_in_body(body)
            } else {
                book_info::nothing_known()
            },
            PageReply::Unsent => book_info::nothing_known(),
        },
        forall|page: PageReply|
            (page matches PageReply::Answered { status, .. } && status == 404) ==> r@
                == #[trigger] info_outcome(page, *reply),
{
    match reply {
        PageReply::Unsent => BookInfo::default(),
        PageReply::Answered { status, body } => {
            if wants_reader_body(*status) {
                read_body(body, book_id)
            } else {
                BookInfo::default()
            }
        },
    }
}

/// An id under which a directory can be asked for: digits, at least one.
pub open spec fn is_book_id(book_id: Seq<char>) -> bool {
    !text::is_blank(book_id) && text::all_digits(book_id)
}

/// Whether a directory can be asked for under this id.
pub fn is_valid_book_id(book_id: &str) -> (r: bool)
    ensures
        r == is_book_id(book_id@),
        r <==> book_id@.len() > 0 && forall|i: int|
            0 <= i < book_id@.len() ==> '0' <= #[trigger] book_id@[i] && book_id@[i] <= '9',
{
    proof {
        lemma_book_id(book_id@);
        text::lemma_all_digits(book_id@);
    }
    !book_id.trim().is_empty() && is_all_digits(book_id)
}

/// An id is digits, at least one.
pub proof fn lemma_book_id(book_id: Seq<char>)
    ensures
        is_book_id(book_id) <==> book_id.len() > 0 && text::all_digits(book_id),
{
    if book_id.len() > 0 && text::all_digits(book_id) {
        assert(text::is_digit(book_id[0]));
        assert(text::is_digit(book_id[book_id.len() - 1]));
        assert(text::trimmed_start(book_id) == book_id);
        assert(text::trimmed_end(book_id) == book_id);
    }
}

/// A request for the directory of a book with such an id always tells that it
/// comes from the page of the book.
pub proof fn lemma_page_in_header(book_id: Seq<char>)
    requires
        is_book_id(book_id),
    ensures
        is_header_text(page_address(book_id)),
{
    reveal_strlit("https://fanqienovel.com/page/");
    let front = "https://fanqienovel.com/page/"@;
    let whole = page_address(book_id);
    assert forall|i: int| 0 <= i < whole.len() implies is_header_char(#[trigger] whole[i]) by {
        if i >= front.len() {
            assert(text::is_digit(book_id[i - front.len()]));
        } else {
            assert(whole[i] == front[i]);
        }
    }
}

/// How often a directory is asked for: as often as is set, at least once.
pub fn attempts(config: &FanqieWebConfig) -> (r: usize)
    ensures
        r == if config.max_retries == 0 { 1 } else { config.max_retries },
{
    if config.max_retries == 0 {
        1
    } else {
        config.max_retries
    }
}

/// What came of a request for a directory. The body is there where it was asked
/// for and could be read.
pub enum DirectoryReply {
    Unsent,
    Answered { status: u16, body: Option<Vec<u8>> },
}

/// What is to be done after a request for a directory.
#[derive(Debug, PartialEq, Eq)]
pub enum DirectoryNext {
    /// These are the chapters.
    Return(Vec<Json>),
    /// Ask again after a pause, which varies by at most so many tenths of a second.
    Again { attempt: usize, jitter_tenths: u64 },
    /// Look at the directory that was kept.
    UseCache,
}

/// What is to be done after a request for a directory.
pub struct DirectoryAction {
    /// Ask for the page of the book first.
    pub warm_up: bool,
    /// Keep these bytes as the directory of the book.
    pub keep: Option<Vec<u8>>,
    pub next: DirectoryNext,
}

/// A reply that forbids the request.
pub open spec fn is_forbidden(reply: DirectoryReply) -> bool {
    reply matches DirectoryReply::Answered { status, .. } && status == 403
}

/// The document in a reply: there is none where the status reports an error.
pub open spec fn reply_document(reply: DirectoryReply) -> Option<JsonView> {
    match reply {
        DirectoryReply::Answered { status, body: Some(b) } => if is_error_status(status) {
            None
        } else {
            json::bytes_document(b@)
        },
        _ => None,
    }
}

/// The chapters in a document that may be missing.
pub open spec fn chapters_in(document: Option<JsonView>) -> Option<Seq<JsonView>> {
    match document {
        Some(d) => chapters::chapter_data(d),
        None => None,
    }
}

/// The bytes to keep of a reply: its document, whether or not it has chapters.
pub open spec fn bytes_to_keep(reply: DirectoryReply) -> Option<Seq<u8>> {
    match reply_document(reply) {
        Some(d) => Some(json::document_bytes(d)),
        None => None,
    }
}

/// What follows a request for a directory, as `DirectoryNext` says it.
pub enum DirectoryStep {
    Return(Seq<JsonView>),
    Again { attempt: int, jitter_tenths: int },
    UseCache,
}

/// What `DirectoryNext` says.
pub open spec fn step_of(next: DirectoryNext) -> DirectoryStep {
    match next {
        DirectoryNext::Return(list) => DirectoryStep::Return(json::items(list@)),
        DirectoryNext::Again { attempt, jitter_tenths } => DirectoryStep::Again {
            attempt: attempt as int,
            jitter_tenths: jitter_tenths as int,
        },
        DirectoryNext::UseCache => DirectoryStep::UseCache,
    }
}

/// What follows the request `attempt` of `retries`: a reply with chapters ends the
/// search, the last request leads to what was kept, and any other is followed by
/// the next. The pause varies more after a request that was forbidden.
pub open spec fn next_step(attempt: int, retries: int, reply: DirectoryReply) -> DirectoryStep {
    match chapters_in(reply_document(reply)) {
        Some(list) => DirectoryStep::Return(list),
        None => if attempt >= retries {
            DirectoryStep::UseCache
        } else {
            DirectoryStep::Again {
                attempt: attempt + 1,
                jitter_tenths: if is_forbidden(reply) {
                    4
                } else {
                    3
                },
            }
        },
    }
}

/// What is to be done after the request `attempt` of `retries`. After the first
/// request, where it was forbidden, the page of the book is asked for. A document
/// is kept whether or not it has chapters; the bytes that are kept read as the same
/// document, and so give the same chapters, where its numbers are integers and it
/// is not nested too deep to be read.
pub fn after_attempt(attempt: usize, retries: usize, reply: &DirectoryReply) -> (r: DirectoryAction)
    ensures
        r.warm_up == (attempt == 1 && is_forbidden(*reply)),
        r.warm_up <==> attempt == 1 && (*reply matches DirectoryReply::Answered { status, .. }
            && status == 403),
        text::opt_bytes(r.keep) == bytes_to_keep(*reply),
        reply_document(*reply) matches Some(d) ==> json::is_plain(d, json::nesting()) ==> {
            &&& text::opt_bytes(r.keep) matches Some(b) && json::bytes_document(b) == Some(d)
            &&& kept_chapters(text::opt_bytes(r.keep)) == chapters::chapter_data(d)
        },
        step_of(r.next) == next_step(attempt as int, retries as int, *reply),
{
    let mut warm_up = false;
    let mut jitter_tenths: u64 = 3;
    let mut keep: Option<Vec<u8>> = None;
    if let DirectoryReply::Answered { status, body } = reply {
        if *status == 403 {
            warm_up = attempt == 1;
            jitter_tenths = 4;
        } else if wants_page_body(*status) {
            if let Some(bytes) = body {
                if let Some(data) = parse_value_bytes(bytes) {
                    keep = encode_value(&data);
                    if let Some(list) = parse_chapter_data(&json_from_value(data)) {
                        return DirectoryAction {
                            warm_up,
                            keep,
                            next: DirectoryNext::Return(list),
                        };
                    }
                }
            }
        }
    }
    let next = if attempt >= retries {
        DirectoryNext::UseCache
    } else {
        DirectoryNext::Again { attempt: attempt + 1, jitter_tenths }
    };
    DirectoryAction { warm_up, keep, next }
}

/// The file in which the directory of a book is kept.
pub fn cache_file_name(book_id: &str) -> (r: String)
    ensures
        r@ == book_id@ + ".json"@,
{
    joined(book_id, ".json")
}

/// The chapters in the directory that was kept, where one was.
pub open spec fn kept_chapters(kept: Option<Seq<u8>>) -> Option<Seq<JsonView>> {
    match kept {
        Some(bytes) => chapters_in(json::bytes_document(bytes)),
        None => None,
    }
}

/// The chapters in the directory that was kept, where one was.
pub fn chapters_from_cache(bytes: Option<Vec<u8>>) -> (r: Option<Vec<Json>>)
    ensures
        chapters::opt_items(r) == kept_chapters(text::opt_bytes(bytes)),
{
    let bytes = bytes?;
    let value = parse_json_bytes(&bytes)?;
    parse_chapter_data(&value)
}

/// How many milliseconds pass at least between two requests for a directory.
pub const DIRECTORY_GAP: u64 = 800;

/// How long to wait before the next request for a directory, where `elapsed` has
/// passed since the last and `min_gap` has to: the rest of it.
pub fn throttle_wait(elapsed: u128, min_gap: u128) -> (r: Option<u128>)
    ensures
        r is Some <==> elapsed < min_gap,
        r matches Some(wait) ==> elapsed + wait == min_gap,
{
    if elapsed < min_gap {
        Some(min_gap - elapsed)
    } else {
        None
    }
}

/// What is kept after a reply, where `kept` was before it.
pub open spec fn kept_after(kept: Option<Seq<u8>>, reply: DirectoryReply) -> Option<Seq<u8>> {
    match bytes_to_keep(reply) {
        Some(bytes) => Some(bytes),
        None => kept,
    }
}

/// What a search for chapters gives from the request `attempt` on: `replies[i]` is
/// what comes of the request `i + 1`, and `kept` is the directory that was kept
/// before it.
pub open spec fn search_outcome(
    replies: Seq<DirectoryReply>,
    attempt: int,
    retries: int,
    kept: Option<Seq<u8>>,
) -> Option<Seq<JsonView>>
    decreases retries - attempt,
{
    let reply = replies[attempt - 1];
    match next_step(attempt, retries, reply) {
        DirectoryStep::Return(list) => Some(list),
        DirectoryStep::UseCache => kept_chapters(kept_after(kept, reply)),
        DirectoryStep::Again { .. } => search_outcome(
            replies,
            attempt + 1,
            retries,
            kept_after(kept, reply),
        ),
    }
}

/// A search for chapters gives those of the first reply that has any, and makes no
/// request after it: here `n` is the request that this reply answers.
pub proof fn lemma_search_succeeds(
    replies: Seq<DirectoryReply>,
    attempt: int,
    retries: int,
    kept: Option<Seq<u8>>,
    n: int,
)
    requires
        1 <= attempt <= n <= retries,
        forall|i: int|
            attempt <= i < n ==> chapters_in(reply_document(#[trigger] replies[i - 1])) is None,
        chapters_in(reply_document(replies[n - 1])) is Some,
    ensures
        search_outcome(replies, attempt, retries, kept) == chapters_in(
            reply_document(replies[n - 1]),
        ),
    decreases retries - attempt,
{
    if attempt < n {
        let reply = replies[attempt - 1];
        assert(chapters_in(reply_document(reply)) is None);
        lemma_search_succeeds(replies, attempt + 1, retries, kept_after(kept, reply), n);
    }
}

/// A search without a reply that has chapters makes all its requests and gives
/// what is kept then: the document of the last reply that has one, here that of the
/// request `n`, or what was kept before where `n` is the request ahead of the first
/// and no reply has a document.
pub proof fn lemma_search_falls_back(
    replies: Seq<DirectoryReply>,
    attempt: int,
    retries: int,
    kept: Option<Seq<u8>>,
    n: int,
)
    requires
        1 <= attempt <= retries,
        attempt - 1 <= n <= retries,
        forall|i: int|
            attempt <= i <= retries ==> chapters_in(reply_document(#[trigger] replies[i - 1])) is None,
        forall|i: int| n < i <= retries ==> reply_document(#[trigger] replies[i - 1]) is None,
        n >= attempt ==> reply_document(replies[n - 1]) is Some,
    ensures
        search_outcome(replies, attempt, retries, kept) == kept_chapters(
            if n >= attempt {
                bytes_to_keep(replies[n - 1])
            } else {
                kept
            },
        ),
    decreases retries - attempt,
{
    let reply = replies[attempt - 1];
    assert(chapters_in(reply_document(reply)) is None);
    if attempt < retries {
        lemma_search_falls_back(
            replies,
            attempt + 1,
            retries,
            kept_after(kept, reply),
            if n < attempt {
                attempt
            } else {
                n
            },
        );
    }
}

/// The statuses from four hundred up to six hundred report an error, and those of the
/// two hundreds report success; no status does both.
pub proof fn lemma_statuses(status: u16)
    ensures
        is_error_status(status) <==> status / 100 == 4 || status / 100 == 5,
        is_success_status(status) <==> status / 100 == 2,
{
}

/// The pages of a book stand on one site, each under the id of the book.
pub proof fn lemma_addresses(book_id: Seq<char>)
    ensures
        page_address(book_id) == "https://fanqienovel.com/page/"@ + book_id,
        reader_address(book_id) == "https://fanqienovel.com/reader/"@ + book_id,
{
}

/// A text can stand in a header exactly when it has no ASCII control character but the
/// tab, and the browser that is set is then named as it is; any other gives way.
pub proof fn lemma_header_text(s: Seq<char>)
    ensures
        is_header_text(s) <==> forall|i: int|
            0 <= i < s.len() ==> (#[trigger] s[i] == '\t' || (s[i] as u32 >= 32 && s[i] as u32
                != 127)),
        is_header_text(s) ==> agent_of(s) == s,
        !is_header_text(s) ==> agent_of(s) == "Mozilla/5.0"@,
{
    if is_header_text(s) {
        assert forall|i: int| 0 <= i < s.len() implies (#[trigger] s[i] == '\t' || (s[i] as u32
            >= 32 && s[i] as u32 != 127)) by {
            assert(is_header_char(s[i]));
        }
    }
}

/// A list of headers holds its headers in their places.
pub proof fn lemma_headers(v: Seq<(String, String)>)
    ensures
        headers(v).len() == v.len(),
        forall|i: int| 0 <= i < v.len() ==> #[trigger] headers(v)[i] == (v[i].0@, v[i].1@),
{
}

/// What is known by a body is what its text tells as a page, and without a body nothing
/// is known.
pub proof fn lemma_info_in_body(html: String)
    ensures
        info_in_body(Some(html)) == book_info::book_info_of(html@),
        info_in_body(None) == book_info::nothing_known(),
{
}

/// A reply has a document exactly when it was answered without an error, with a body
/// that is one; a reply with the status `403` forbids the request, and no other does.
pub proof fn lemma_reply(status: u16, body: Option<Vec<u8>>)
    ensures
        reply_document(DirectoryReply::Unsent) is None,
        !is_forbidden(DirectoryReply::Unsent),
        is_forbidden(DirectoryReply::Answered { status, body }) <==> status == 403,
        ({
            let document = reply_document(DirectoryReply::Answered { status, body });
            &&& 400 <= status < 600 ==> document is None
            &&& body is None ==> document is None
            &&& !(400 <= status < 600) ==> (body matches Some(b) ==> document
                == json::bytes_document(b@))
        }),
{
}

/// A reply whose document has chapters ends the search with them. After any other, the
/// last request leads to what was kept, and one that is not the last to the next, after a
/// pause that varies by four tenths of a second where the request was forbidden, else by
/// three.
pub proof fn lemma_next_step(attempt: int, retries: int, reply: DirectoryReply)
    ensures
        ({
            let step = next_step(attempt, retries, reply);
            let found = match reply_document(reply) {
                Some(d) => chapters::chapter_data(d),
                None => None,
            };
            &&& found matches Some(list) ==> step == DirectoryStep::Return(list)
            &&& found is None && attempt >= retries ==> step is UseCache
            &&& found is None && attempt < retries && is_forbidden(reply) ==> step
                == (DirectoryStep::Again { attempt: attempt + 1, jitter_tenths: 4 })
            &&& found is None && attempt < retries && !is_forbidden(reply) ==> step
                == (DirectoryStep::Again { attempt: attempt + 1, jitter_tenths: 3 })
        }),
{
}

/// What `DirectoryNext` says is what it is.
pub proof fn lemma_step_of(list: Vec<Json>, attempt: usize, jitter_tenths: u64)
    ensures
        step_of(DirectoryNext::Return(list)) == DirectoryStep::Return(json::items(list@)),
        step_of(DirectoryNext::Again { attempt, jitter_tenths }) == (DirectoryStep::Again {
            attempt: attempt as int,
            jitter_tenths: jitter_tenths as int,
        }),
        step_of(DirectoryNext::UseCache) is UseCache,
{
}

/// The document of a reply is kept, whatever it holds, in the place of what was kept
/// before; a reply without a document leaves that as it is. What is kept gives the
/// chapters of the document that its bytes are.
pub proof fn lemma_kept(
    kept: Option<Seq<u8>>,
    bytes: Seq<u8>,
    reply: DirectoryReply,
    document: JsonView,
)
    ensures
        reply_document(reply) matches Some(d) ==> bytes_to_keep(reply) == Some(
            json::document_bytes(d),
        ) && kept_after(kept, reply) == Some(json::document_bytes(d)),
        reply_document(reply) is None ==> bytes_to_keep(reply) is None && kept_after(kept, reply)
            == kept,
        kept_chapters(None) is None,
        json::bytes_document(bytes) is None ==> kept_chapters(Some(bytes)) is None,
        json::bytes_document(bytes) matches Some(d) ==> kept_chapters(Some(bytes))
            == chapters::chapter_data(d),
        chapters_in(None) is None,
        chapters_in(Some(document)) == chapters::chapter_data(document),
{
}

} // verus!
