use vstd::prelude::*;
use vstd::string::*;
use crate::duration::{DurationError, duration_captures, duration_of, parse_duration};

verus! {

/// Reply to a message that names no known command.
pub const COMMAND_NOT_FOUND_MESSAGE: &'static str = "コマンドが見つかりません :eyes_komatta:";

/// Text of a reminder registered without one.
pub const DEFAULT_MESSAGE: &'static str = "時間になりました :blob_bongo:";

/// Reply to an add command without a duration.
pub const NO_DURATION_MESSAGE: &'static str = "時間を指定してください";

/// Reply to a remove command without a message link.
pub const NO_LINK_MESSAGE: &'static str = "メッセージのURLを指定してください";

/// Reply to a remove command with several message links.
pub const MANY_LINKS_MESSAGE: &'static str = "メッセージのURLは1つだけ指定してください";

/// Reply to a duration that cannot be read, or that reaches too far.
pub const BAD_DURATION_MESSAGE: &'static str = "時間の指定が正しくありません";

/// A mention of this bot, as the chat embeds it in a message's text.
const MENTION_PATTERN: &'static str = r#"!\{"type":"user","raw":"(?:[^\\"]|\\.)+","id":"d352688f-a656-4444-8c5f-caa517e9ea1b"\}"#;

/// An embedded mention of a user, channel or group; `raw` is its plain text.
const SPECIAL_MESSAGE_PATTERN: &'static str = r#"!\{"type":"(user|channel|group)","raw":"(?P<raw>(?:[^\\"]|\\.)+)","id":"(?:[^\\"]|\\.)+"\}"#;

/// A link to a message, such as `https://q.trap.jp/messages/<uuid>`.
const MESSAGE_LINK_PATTERN: &'static str = r#"(?:https?:)?//q\.trap\.jp/messages/(?P<uuid>[0-9a-f-]+)"#;

/// A request read from a chat message.
#[derive(Debug, Clone)]
pub enum Parsed {
    /// Remind with this text at this time (seconds since the Unix epoch).
    Add(String, u64),
    /// Cancel the reminder registered by this message id.
    Remove(String),
    /// List reminders: everyone's when true, the sender's own otherwise.
    List(bool),
    Join,
    Leave,
}

pub enum ParsedView {
    Add(Seq<char>, u64),
    Remove(Seq<char>),
    List(bool),
    Join,
    Leave,
}

impl View for Parsed {
    type V = ParsedView;

    open spec fn view(&self) -> ParsedView {
        match self {
            Parsed::Add(m, t) => ParsedView::Add(m@, *t),
            Parsed::Remove(id) => ParsedView::Remove(id@),
            Parsed::List(all) => ParsedView::List(*all),
            Parsed::Join => ParsedView::Join,
            Parsed::Leave => ParsedView::Leave,
        }
    }
}

pub type Request = Result<ParsedView, Option<Seq<char>>>;

pub open spec fn request_view(r: Result<Parsed, Option<String>>) -> Request {
    match r {
        Ok(p) => Ok(p@),
        Err(None) => Err(None),
        Err(Some(e)) => Err(Some(e@)),
    }
}

/// `s` without leading and trailing white space.
pub uninterp spec fn trim_of(s: Seq<char>) -> Seq<char>;

/// The words of `s`, split at runs of white space.
pub uninterp spec fn words_of(s: Seq<char>) -> Seq<Seq<char>>;

/// `s` with each embedded mention of this bot removed.
pub uninterp spec fn mentions_removed(s: Seq<char>) -> Seq<char>;

/// `s` with each embedded user, channel or group mention replaced by its
/// plain text.
pub uninterp spec fn specials_replaced(s: Seq<char>) -> Seq<char>;

/// The ids of the message links in `s`, in order.
pub uninterp spec fn linked_ids(s: Seq<char>) -> Seq<Seq<char>>;

/// `s` with every leading copy of `p` removed.
pub open spec fn strip_repeated(s: Seq<char>, p: Seq<char>) -> Seq<char>
    decreases s.len(),
{
    if p.len() > 0 && p.len() <= s.len() && s.subrange(0, p.len() as int) == p {
        strip_repeated(s.subrange(p.len() as int, s.len() as int), p)
    } else {
        s
    }
}

pub open spec fn contains_text(s: Seq<char>, p: Seq<char>) -> bool {
    exists|i: int| 0 <= i <= s.len() - p.len() && #[trigger] s.subrange(i, i + p.len()) == p
}

/// Relies on `str::trim`.
#[verifier::external_body]
fn trimmed(s: &str) -> (r: String)
    ensures
        r@ == trim_of(s@),
{
    s.trim().to_string()
}

/// Relies on `str::split_whitespace`.
#[verifier::external_body]
fn words(s: &str) -> (r: Vec<String>)
    ensures
        r@.len() == words_of(s@).len(),
        forall|i: int| 0 <= i < r@.len() ==> (#[trigger] r@[i])@ == words_of(s@)[i],
{
    s.split_whitespace().map(|w| w.to_string()).collect()
}

/// Relies on `str::trim_start_matches` with a non-empty text pattern: every
/// leading match of the pattern is removed.
#[verifier::external_body]
fn strip_prefixes(s: &str, p: &str) -> (r: String)
    requires
        p@.len() > 0,
    ensures
        r@ == strip_repeated(s@, p@),
{
    s.trim_start_matches(p).to_string()
}

/// Relies on `str::contains` with a text pattern: whether `p` occurs in `s`.
#[verifier::external_body]
fn has_text(s: &str, p: &str) -> (r: bool)
    ensures
        r == contains_text(s@, p@),
{
    s.contains(p)
}

/// Relies on regex's `Regex::new` and `Regex::replace_all`, with the fixed,
/// valid mention pattern, each match replaced by nothing.
#[verifier::external_body]
fn remove_mentions(s: &str) -> (r: String)
    ensures
        r@ == mentions_removed(s@),
{
    regex::Regex::new(MENTION_PATTERN).unwrap().replace_all(s, "").to_string()
}

/// Relies on regex's `Regex::new` and `Regex::replace_all`, with the fixed,
/// valid pattern of embedded mentions, each replaced by its `raw` group.
#[verifier::external_body]
fn replace_specials(s: &str) -> (r: String)
    ensures
        r@ == specials_replaced(s@),
{
    regex::Regex::new(SPECIAL_MESSAGE_PATTERN).unwrap().replace_all(s, "${raw}").to_string()
}

/// Relies on regex's `Regex::new` and `Regex::captures_iter`, with the
/// fixed, valid message link pattern: the `uuid` group of each match, in
/// order. The group takes part in every match.
#[verifier::external_body]
fn link_ids(s: &str) -> (r: Vec<String>)
    ensures
        r@.len() == linked_ids(s@).len(),
        forall|i: int| 0 <= i < r@.len() ==> (#[trigger] r@[i])@ == linked_ids(s@)[i],
{
    regex::Regex::new(MESSAGE_LINK_PATTERN).unwrap().captures_iter(s).map(
        |c| c["uuid"].to_string(),
    ).collect()
}

pub open spec fn texts(v: Seq<String>) -> Seq<Seq<char>> {
    v.map_values(|s: String| s@)
}

pub open spec fn is_add_command(w: Seq<char>) -> bool {
    w == "+"@ || w == "add"@ || w == "a"@ || w == "set"@ || w == "s"@
}

pub open spec fn is_remove_command(w: Seq<char>) -> bool {
    w == "-"@ || w == "remove"@ || w == "r"@ || w == "delete"@ || w == "d"@
}

pub open spec fn is_list_command(w: Seq<char>) -> bool {
    w == "list"@ || w == "l"@ || w == "ls"@
}

/// The reply to a duration that cannot be used.
pub open spec fn duration_error_text(e: DurationError) -> Seq<char> {
    match e {
        DurationError::Repeated(c) => if c == 'w' {
            "週は1つだけ指定してください"@
        } else if c == 'd' {
            "日は1つだけ指定してください"@
        } else if c == 'h' {
            "時間は1つだけ指定してください"@
        } else if c == 'm' {
            "分は1つだけ指定してください"@
        } else {
            "秒は1つだけ指定してください"@
        },
        _ => BAD_DURATION_MESSAGE@,
    }
}

/// The text of a reminder: what follows the command word and the duration,
/// with embedded mentions as plain text; a default when nothing follows.
pub open spec fn reminder_text(body: Seq<char>, command: Seq<char>, duration: Seq<char>) -> Seq<char> {
    let m = specials_replaced(
        trim_of(strip_repeated(trim_of(strip_repeated(body, command)), duration)),
    );
    if m.len() == 0 {
        DEFAULT_MESSAGE@
    } else {
        m
    }
}

/// The request that command words `args` make, `body` being the text they
/// were read from, at time `now`.
pub open spec fn command_of(body: Seq<char>, args: Seq<Seq<char>>, now: u64) -> Request {
    if args.len() == 0 {
        Err(Some(COMMAND_NOT_FOUND_MESSAGE@))
    } else if is_add_command(args[0]) {
        if args.len() < 2 {
            Err(Some(NO_DURATION_MESSAGE@))
        } else {
            match duration_of(duration_captures(args[1])) {
                Err(e) => Err(Some(duration_error_text(e))),
                Ok(d) => if now + d > u64::MAX {
                    Err(Some(BAD_DURATION_MESSAGE@))
                } else {
                    Ok(ParsedView::Add(reminder_text(body, args[0], args[1]), (now + d) as u64))
                },
            }
        }
    } else if is_remove_command(args[0]) {
        if args.len() < 2 {
            Err(Some(NO_LINK_MESSAGE@))
        } else {
            let ids = linked_ids(trim_of(strip_repeated(body, args[0])));
            if ids.len() == 0 {
                Err(Some(NO_LINK_MESSAGE@))
            } else if ids.len() > 1 {
                Err(Some(MANY_LINKS_MESSAGE@))
            } else {
                Ok(ParsedView::Remove(ids[0]))
            }
        }
    } else if is_list_command(args[0]) {
        Ok(ParsedView::List(contains_text(body, "-a"@)))
    } else {
        Err(Some(COMMAND_NOT_FOUND_MESSAGE@))
    }
}

pub open spec fn starts_with_word(w: Seq<Seq<char>>, word: Seq<char>) -> bool {
    w.len() > 0 && w[0] == word
}

/// The request that a message's text makes. Without a mention of this bot
/// it must start with `timer`; with one, `timer` may be left out, and
/// `join` and `leave` are understood too.
pub open spec fn request_of_text(content: Seq<char>, is_mentioned: bool, now: u64) -> Request {
    let c = trim_of(content);
    let w = words_of(c);
    if is_mentioned && starts_with_word(w, "join"@) {
        Ok(ParsedView::Join)
    } else if is_mentioned && starts_with_word(w, "leave"@) {
        Ok(ParsedView::Leave)
    } else if !is_mentioned && !starts_with_word(w, "timer"@) {
        Err(None)
    } else if starts_with_word(w, "timer"@) {
        command_of(trim_of(strip_repeated(c, "timer"@)), w.drop_first(), now)
    } else {
        command_of(c, w, now)
    }
}

/// Whether `a` is the text `b`.
pub fn same_text(a: &str, b: &str) -> (r: bool)
    ensures
        r == (a@ == b@),
{
    let la = a.unicode_len();
    let lb = b.unicode_len();
    if la != lb {
        return false;
    }
    let mut i: usize = 0;
    while i < la
        invariant
            la == a@.len(),
            lb == b@.len(),
            la == lb,
            i <= la,
            forall|k: int| 0 <= k < i ==> a@[k] == b@[k],
        decreases la - i,
    {
        if a.get_char(i) != b.get_char(i) {
            return false;
        }
        i = i + 1;
    }
    proof {
        assert(a@ =~= b@);
    }
    true
}

fn add_command(w: &str) -> (r: bool)
    ensures
        r == is_add_command(w@),
{
    same_text(w, "+") || same_text(w, "add") || same_text(w, "a") || same_text(w, "set")
        || same_text(w, "s")
}

fn remove_command(w: &str) -> (r: bool)
    ensures
        r == is_remove_command(w@),
{
    same_text(w, "-") || same_text(w, "remove") || same_text(w, "r") || same_text(w, "delete")
        || same_text(w, "d")
}

fn list_command(w: &str) -> (r: bool)
    ensures
        r == is_list_command(w@),
{
    same_text(w, "list") || same_text(w, "l") || same_text(w, "ls")
}

/// The reply to a duration that cannot be used.
pub fn duration_error_message(e: DurationError) -> (r: String)
    ensures
        r@ == duration_error_text(e),
{
    match e {
        DurationError::Repeated(c) => if c == 'w' {
            String::from_str("週は1つだけ指定してください")
        } else if c == 'd' {
            String::from_str("日は1つだけ指定してください")
        } else if c == 'h' {
            String::from_str("時間は1つだけ指定してください")
        } else if c == 'm' {
            String::from_str("分は1つだけ指定してください")
        } else {
            String::from_str("秒は1つだけ指定してください")
        },
        _ => String::from_str(BAD_DURATION_MESSAGE),
    }
}

/// Reads the request that command words `args` make at time `now`, `body`
/// being the text they were read from.
pub fn parse_command(body: &str, args: &Vec<String>, now: u64) -> (r: Result<Parsed, Option<String>>)
    ensures
        request_view(r) == command_of(body@, texts(args@), now),
{
    let ghost a = texts(args@);
    if args.len() == 0 {
        return Err(Some(String::from_str(COMMAND_NOT_FOUND_MESSAGE)));
    }
    assert(a[0] == args@[0]@);
    let first = args[0].as_str();
    if add_command(first) {
        if args.len() < 2 {
            return Err(Some(String::from_str(NO_DURATION_MESSAGE)));
        }
        assert(a[1] == args@[1]@);
        let seconds = match parse_duration(args[1].as_str()) {
            Err(e) => {
                return Err(Some(duration_error_message(e)));
            },
            Ok(d) => d,
        };
        if seconds > u64::MAX - now {
            return Err(Some(String::from_str(BAD_DURATION_MESSAGE)));
        }
        proof {
            reveal_strlit("+");
            reveal_strlit("add");
            reveal_strlit("a");
            reveal_strlit("set");
            reveal_strlit("s");
        }
        let rest = trimmed(strip_prefixes(body, first).as_str());
        let rest = if args[1].as_str().unicode_len() == 0 {
            trimmed(rest.as_str())
        } else {
            trimmed(strip_prefixes(rest.as_str(), args[1].as_str()).as_str())
        };
        let text = replace_specials(rest.as_str());
        let text = if text.as_str().unicode_len() == 0 {
            String::from_str(DEFAULT_MESSAGE)
        } else {
            text
        };
        return Ok(Parsed::Add(text, now + seconds));
    }
    if remove_command(first) {
        if args.len() < 2 {
            return Err(Some(String::from_str(NO_LINK_MESSAGE)));
        }
        proof {
            reveal_strlit("-");
            reveal_strlit("remove");
            reveal_strlit("r");
            reveal_strlit("delete");
            reveal_strlit("d");
        }
        let rest = trimmed(strip_prefixes(body, first).as_str());
        let ids = link_ids(rest.as_str());
        if ids.len() == 0 {
            return Err(Some(String::from_str(NO_LINK_MESSAGE)));
        }
        if ids.len() > 1 {
            return Err(Some(String::from_str(MANY_LINKS_MESSAGE)));
        }
        let id = ids[0].clone();
        return Ok(Parsed::Remove(id));
    }
    if list_command(first) {
        return Ok(Parsed::List(has_text(body, "-a")));
    }
    Err(Some(String::from_str(COMMAND_NOT_FOUND_MESSAGE)))
}

/// Reads the request that a message's text makes at time `now`.
/// `Err(None)`: the message is not addressed to this bot; `Err(Some(e))`:
/// it is, and `e` is the reply.
pub fn parse(content: &str, is_mentioned: bool, now: u64) -> (r: Result<Parsed, Option<String>>)
    ensures
        request_view(r) == request_of_text(content@, is_mentioned, now),
{
    let c = trimmed(content);
    let mut w = words(c.as_str());
    proof {
        assert(texts(w@) =~= words_of(c@));
    }
    let has_timer = w.len() > 0 && same_text(w[0].as_str(), "timer");
    if is_mentioned && w.len() > 0 {
        if same_text(w[0].as_str(), "join") {
            return Ok(Parsed::Join);
        }
        if same_text(w[0].as_str(), "leave") {
            return Ok(Parsed::Leave);
        }
    }
    if !is_mentioned && !has_timer {
        return Err(None);
    }
    if has_timer {
        proof {
            reveal_strlit("timer");
        }
        let body = trimmed(strip_prefixes(c.as_str(), "timer").as_str());
        w.remove(0);
        proof {
            assert(texts(w@) =~= words_of(c@).drop_first());
        }
        parse_command(body.as_str(), &w, now)
    } else {
        parse_command(c.as_str(), &w, now)
    }
}

/// Reads the request that a chat message makes at time `now`; a mention of
/// this bot is first taken out of the text.
pub fn request_of(text: &str, is_mentioned: bool, now: u64) -> (r: Result<Parsed, Option<String>>)
    ensures
        is_mentioned ==> request_view(r) == request_of_text(mentions_removed(text@), true, now),
        !is_mentioned ==> request_view(r) == request_of_text(text@, false, now),
{
    if is_mentioned {
        let content = remove_mentions(text);
        parse(content.as_str(), true, now)
    } else {
        parse(text, false, now)
    }
}

} // verus!
