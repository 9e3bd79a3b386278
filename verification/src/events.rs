//! Decisions taken on Discord events, and the text of the suggestion
//! message posted under a new forum thread.
use vstd::prelude::*;
use crate::search::ResultKind;
use crate::text::{
    chars_of, parse_u64, parse_u64_spec, push_chars, push_str, string_of, trim_whitespace,
    trim_ws,
};

verus! {

// ── New forum threads ───────────────────────────────────────────────────────

/// A configured forum, as the event handlers read it.
#[derive(Debug)]
pub struct ForumSource {
    /// Guild (server) id as a string snowflake.
    pub guild_id: String,
    /// Forum channel id as a string snowflake.
    pub channel_id: String,
    /// Whether suggestions are posted in reply to new threads.
    pub reply: bool,
}

/// The guild channel a message was posted in.
#[derive(Debug)]
pub struct ThreadInfo {
    pub guild_id: u64,
    pub channel_id: u64,
    pub is_public_thread: bool,
    pub parent_id: Option<u64>,
    pub name: String,
}

/// What to do with a new message.
#[derive(Debug)]
pub enum MessageAction {
    /// Nothing.
    Ignore,
    /// The message opens a new thread in a forum that replies: search with
    /// this query, scoped to this guild, and post what is found.
    Suggest { guild_id: u64, query: String },
}

/// The first forum, from `forums` on, whose ids parse and that contains the
/// new thread and replies to it; its guild id.
pub open spec fn replying_forum(
    forums: Seq<ForumSource>,
    thread_guild: u64,
    parent: u64,
    message_id: u64,
    thread_id: u64,
) -> Option<u64>
    decreases forums.len(),
{
    if forums.len() == 0 {
        None
    } else {
        let f = forums[0];
        match (parse_u64_spec(f.guild_id@), parse_u64_spec(f.channel_id@)) {
            (Some(g), Some(c)) => if thread_guild == g && parent == c && message_id == thread_id
                && f.reply {
                Some(g)
            } else {
                replying_forum(forums.drop_first(), thread_guild, parent, message_id, thread_id)
            },
            _ => replying_forum(forums.drop_first(), thread_guild, parent, message_id, thread_id),
        }
    }
}

/// The query a new thread is searched with: its name, a newline, then its
/// opening message.
pub open spec fn thread_query(name: Seq<char>, content: Seq<char>) -> Seq<char> {
    name + "\n"@ + content
}

/// Decides whether a message opens a new thread that gets suggestions.
/// In a Discord forum the first message of a new thread has the thread's own
/// id; messages from bots, outside public threads, or in threads without a
/// parent channel are ignored. `channel` is `None` when the message's channel
/// is not a guild channel.
pub fn message_action(
    author_is_bot: bool,
    channel: &Option<ThreadInfo>,
    message_id: u64,
    content: &str,
    forums: &Vec<ForumSource>,
) -> (a: MessageAction)
    ensures
        match a {
            MessageAction::Ignore => author_is_bot || channel is None || !channel->0.is_public_thread
                || channel->0.parent_id is None || replying_forum(
                forums@,
                channel->0.guild_id,
                channel->0.parent_id->0,
                message_id,
                channel->0.channel_id,
            ) is None,
            MessageAction::Suggest { guild_id, query } => !author_is_bot && channel is Some
                && channel->0.is_public_thread && channel->0.parent_id is Some && replying_forum(
                forums@,
                channel->0.guild_id,
                channel->0.parent_id->0,
                message_id,
                channel->0.channel_id,
            ) == Some(guild_id) && query@ == thread_query(channel->0.name@, content@),
        },
{
    if author_is_bot {
        return MessageAction::Ignore;
    }
    let info = match channel {
        Some(info) => info,
        None => {
            return MessageAction::Ignore;
        },
    };
    if !info.is_public_thread {
        return MessageAction::Ignore;
    }
    let parent = match info.parent_id {
        Some(p) => p,
        None => {
            return MessageAction::Ignore;
        },
    };
    let mut i: usize = 0;
    assert(forums@.skip(0) == forums@);
    while i < forums.len()
        invariant
            i <= forums.len(),
            !author_is_bot,
            channel is Some,
            *info == channel->0,
            info.is_public_thread,
            info.parent_id == Some(parent),
            replying_forum(forums@.skip(i as int), info.guild_id, parent, message_id, info.channel_id)
                == replying_forum(forums@, info.guild_id, parent, message_id, info.channel_id),
        decreases forums.len() - i,
    {
        let f = &forums[i];
        assert(forums@.skip(i as int)[0] == forums@[i as int]);
        assert(forums@.skip(i as int).drop_first() == forums@.skip(i + 1));
        match (parse_u64(f.guild_id.as_str()), parse_u64(f.channel_id.as_str())) {
            (Some(g), Some(c)) => {
                let is_new_thread = info.guild_id == g && parent == c && message_id == info.channel_id;
                if is_new_thread && f.reply {
                    assert(replying_forum(
                        forums@.skip(i as int),
                        info.guild_id,
                        parent,
                        message_id,
                        info.channel_id,
                    ) == Some(g));
                    let mut query = String::new();
                    push_str(&mut query, info.name.as_str());
                    push_str(&mut query, "\n");
                    push_str(&mut query, content);
                    assert(query@ =~= thread_query(info.name@, content@));
                    return MessageAction::Suggest { guild_id: g, query };
                }
            },
            _ => {},
        }
        i = i + 1;
    }
    MessageAction::Ignore
}

/// What to do when a thread changes.
#[derive(Debug, Clone, Copy, PartialEq, Eq, Structural)]
pub enum ThreadUpdateAction {
    /// It was archived: index it and its messages.
    Sync,
    /// It is active again: remove it from the database.
    Remove,
    /// It carries no thread metadata: nothing.
    Nothing,
}

/// An archived thread is synced to the database; an unarchived one is
/// removed from it.
pub fn thread_update_action(archived: Option<bool>) -> (a: ThreadUpdateAction)
    ensures
        a == match archived {
            Some(true) => ThreadUpdateAction::Sync,
            Some(false) => ThreadUpdateAction::Remove,
            None => ThreadUpdateAction::Nothing,
        },
{
    match archived {
        Some(true) => ThreadUpdateAction::Sync,
        Some(false) => ThreadUpdateAction::Remove,
        None => ThreadUpdateAction::Nothing,
    }
}

// ── Suggestion message ──────────────────────────────────────────────────────

/// The characters removed from titles, one or more at a time: the emoticon,
/// pictograph, transport and flag blocks (U+1F600–U+1F64F, U+1F300–U+1F5FF,
/// U+1F680–U+1F6FF, U+1F1E0–U+1F1FF), the dingbats (U+2702–U+27B0), and the
/// other blocks that hold emoji: Ⓜ (U+24C2), geometric shapes
/// (U+25A0–U+25FF), miscellaneous symbols and dingbats (U+2600–U+27BF), the
/// arrows and stars U+2B05–U+2B55, the presentation selectors U+FE0E–U+FE0F,
/// and the tiles, cards and enclosed supplements U+1F000–U+1F251. Letters of
/// any script (CJK among them) are not in the class.
pub open spec fn emoji_pattern() -> Seq<char> {
    "[\u{01F600}-\u{01F64F}\u{01F300}-\u{01F5FF}\u{01F680}-\u{01F6FF}\u{01F1E0}-\u{01F1FF}\u{002702}-\u{0027B0}\u{0024C2}\u{0025A0}-\u{0025FF}\u{002600}-\u{0027BF}\u{002B05}-\u{002B55}\u{00FE0E}-\u{00FE0F}\u{01F000}-\u{01F251}]+"@
}

/// What `Regex::new(pattern)` followed by `replace_all(text, rep)` gives, or
/// `None` when the pattern does not compile.
pub uninterp spec fn regex_replace_all_result(pattern: Seq<char>, text: Seq<char>, rep: Seq<char>) -> Option<
    Seq<char>,
>;

/// Compiles `pattern` with `regex::Regex::new` and calls `Regex::replace_all`
/// on `text`; the result is the named one.
#[verifier::external_body]
fn regex_replace_all(pattern: &str, text: &str, rep: &str) -> (r: Option<String>)
    ensures
        match r {
            Some(s) => regex_replace_all_result(pattern@, text@, rep@) == Some(s@),
            None => regex_replace_all_result(pattern@, text@, rep@) is None,
        },
{
    match regex::Regex::new(pattern) {
        Ok(re) => Some(re.replace_all(text, rep).to_string()),
        Err(_) => None,
    }
}

/// Removes emojis from a string. `None` if the emoji pattern failed to
/// compile.
pub fn demoji(s: &str) -> (r: Option<String>)
    ensures
        match r {
            Some(x) => regex_replace_all_result(emoji_pattern(), s@, ""@) == Some(x@),
            None => regex_replace_all_result(emoji_pattern(), s@, ""@) is None,
        },
{
    regex_replace_all(
        "[\u{01F600}-\u{01F64F}\u{01F300}-\u{01F5FF}\u{01F680}-\u{01F6FF}\u{01F1E0}-\u{01F1FF}\u{002702}-\u{0027B0}\u{0024C2}\u{0025A0}-\u{0025FF}\u{002600}-\u{0027BF}\u{002B05}-\u{002B55}\u{00FE0E}-\u{00FE0F}\u{01F000}-\u{01F251}]+",
        s,
        "",
    )
}

/// The label of a result's source.
pub open spec fn result_tag_spec(kind: ResultKind) -> Seq<char> {
    match kind {
        ResultKind::Doc => "`[Docs]`"@,
        ResultKind::GhIssue => "`[GitHub Issue]`"@,
        ResultKind::DiscordThread => "`[Discord]`"@,
    }
}

/// The label of a result's source.
pub fn result_tag(kind: ResultKind) -> (t: &'static str)
    ensures
        t@ == result_tag_spec(kind),
{
    match kind {
        ResultKind::Doc => "`[Docs]`",
        ResultKind::GhIssue => "`[GitHub Issue]`",
        ResultKind::DiscordThread => "`[Discord]`",
    }
}

/// One line of the suggestion message: `**(<pct>%)** <tag> <title>`, the
/// title (emoji removed, trimmed) in bold and linked when a URL is known.
pub open spec fn result_line_spec(kind: ResultKind, pct: Seq<char>, clean_title: Seq<char>, url: Option<
    Seq<char>,
>) -> Seq<char> {
    let title_part = match url {
        Some(u) => "[**"@ + clean_title + "**]("@ + u + ")"@,
        None => "**"@ + clean_title + "**"@,
    };
    "**("@ + pct + "%)** "@ + result_tag_spec(kind) + " "@ + title_part
}

/// Formats a single search result as one line of text, given its score as a
/// whole percentage. `None` where the emoji pattern fails to compile.
pub fn format_result_line(kind: ResultKind, score_pct: u32, title: &str, url: &Option<String>) -> (r:
    Option<String>)
    ensures
        match regex_replace_all_result(emoji_pattern(), title@, ""@) {
            None => r is None,
            Some(t) => r is Some && r->0@ == result_line_spec(
                kind,
                crate::text::decimal(score_pct as nat),
                trim_ws(t),
                match *url {
                    Some(u) => Some(u@),
                    None => None,
                },
            ),
        },
{
    let cleaned = match demoji(title) {
        Some(c) => c,
        None => {
            return None;
        },
    };
    let clean_title = trim_whitespace(&chars_of(cleaned.as_str()));
    let mut line = String::new();
    push_str(&mut line, "**(");
    push_str(&mut line, crate::text::decimal_string(score_pct as u64).as_str());
    push_str(&mut line, "%)** ");
    push_str(&mut line, result_tag(kind));
    push_str(&mut line, " ");
    match url {
        Some(u) => {
            push_str(&mut line, "[**");
            push_chars(&mut line, &clean_title);
            push_str(&mut line, "**](");
            push_str(&mut line, u.as_str());
            push_str(&mut line, ")");
        },
        None => {
            push_str(&mut line, "**");
            push_chars(&mut line, &clean_title);
            push_str(&mut line, "**");
        },
    }
    Some(line)
}

/// Lines joined with newlines.
pub open spec fn join_lines(lines: Seq<Seq<char>>) -> Seq<char>
    decreases lines.len(),
{
    if lines.len() == 0 {
        Seq::empty()
    } else if lines.len() == 1 {
        lines[0]
    } else {
        join_lines(lines.drop_last()) + "\n"@ + lines.last()
    }
}

/// The suggestion message: the header, then one line per result.
pub fn suggestion_message(header: &str, lines: &Vec<String>) -> (m: String)
    ensures
        m@ == join_lines(seq![header@] + crate::text::strings_view(lines@)),
{
    let ghost all = seq![header@] + crate::text::strings_view(lines@);
    let mut m = String::new();
    push_str(&mut m, header);
    let mut i: usize = 0;
    assert(all.take(1) =~= seq![header@]);
    while i < lines.len()
        invariant
            i <= lines.len(),
            all == seq![header@] + crate::text::strings_view(lines@),
            m@ == join_lines(all.take(i + 1)),
        decreases lines.len() - i,
    {
        push_str(&mut m, "\n");
        push_str(&mut m, lines[i].as_str());
        assert(all.take(i + 2).drop_last() =~= all.take(i + 1));
        assert(all.take(i + 2).last() == lines@[i as int]@);
        i = i + 1;
    }
    assert(all.take(lines.len() + 1) =~= all);
    m
}

} // verus!
