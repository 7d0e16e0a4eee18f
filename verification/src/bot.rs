//! What the bot does with a chat event: which command a message is, and when
//! the daily work runs.

use vstd::prelude::*;

use crate::json::{JsonField, JsonFieldView, JsonObject, json_object_fields, read_json_object};
use crate::text::{
    chars_of, has_prefix, is_white_space, join, lemma_words_after_word, no_white_space, seq_join,
    split_whitespace, starts_with_chars, str_eq, strs_view, words,
};

verus! {

/// The first word of a message, or nothing when it has no words.
pub open spec fn command_of(raw: Seq<char>) -> Seq<char> {
    if words(raw).len() == 0 {
        Seq::empty()
    } else {
        words(raw)[0]
    }
}

/// The words of a message after the first.
pub open spec fn args_of(raw: Seq<char>) -> Seq<Seq<char>> {
    if words(raw).len() == 0 {
        Seq::empty()
    } else {
        words(raw).skip(1)
    }
}

/// A message split into its command, the first word, and the words after it.
/// A message without words has an empty command and no arguments.
pub fn parse_message<'a>(message: &'a str) -> (res: (&'a str, Vec<&'a str>))
    ensures
        res.0@ == command_of(message@),
        strs_view(res.1@) == args_of(message@),
{
    let ws = split_whitespace(message);
    let ghost wv = words(message@);
    if ws.len() == 0 {
        let empty: Vec<&'a str> = Vec::new();
        assert(strs_view(empty@) =~= Seq::<Seq<char>>::empty());
        proof {
            reveal_strlit("");
        }
        return ("", empty);
    }
    assert(strs_view(ws@)[0] == ws@[0]@);
    let command = ws[0];
    let mut args: Vec<&'a str> = Vec::new();
    let mut i: usize = 1;
    while i < ws.len()
        invariant
            1 <= i <= ws@.len(),
            strs_view(ws@) == wv,
            strs_view(args@) == wv.subrange(1, i as int),
        decreases ws.len() - i,
    {
        let ghost prev = args@;
        args.push(ws[i]);
        assert(strs_view(args@) =~= strs_view(prev).push(ws@[i as int]@));
        assert(wv[i as int] == ws@[i as int]@);
        assert(strs_view(args@) =~= wv.subrange(1, i + 1));
        i = i + 1;
    }
    assert(wv.subrange(1, ws@.len() as int) =~= wv.skip(1));
    (command, args)
}

/// What the bot does about a group message.
#[derive(Debug)]
pub enum BotAction {
    /// Count the message toward its sender's tally of the day.
    Count,
    /// Answer with this text.
    Reply(String),
    /// Post the ranking of the day.
    DailyRank,
    /// Post the all-time ranking.
    TotalRank,
    /// Post the list of image commands.
    PetList,
    /// Post the sender's partner of the day.
    Wife,
    /// Post the sender's fortune of the day.
    Fortune,
    /// Ask the chat model this text and post its answer.
    Chat(String),
}

/// The abstract value of a [`BotAction`].
pub enum ActionView {
    Count,
    Reply(Seq<char>),
    DailyRank,
    TotalRank,
    PetList,
    Wife,
    Fortune,
    Chat(Seq<char>),
}

impl View for BotAction {
    type V = ActionView;

    open spec fn view(&self) -> ActionView {
        match self {
            BotAction::Count => ActionView::Count,
            BotAction::Reply(s) => ActionView::Reply(s@),
            BotAction::DailyRank => ActionView::DailyRank,
            BotAction::TotalRank => ActionView::TotalRank,
            BotAction::PetList => ActionView::PetList,
            BotAction::Wife => ActionView::Wife,
            BotAction::Fortune => ActionView::Fortune,
            BotAction::Chat(s) => ActionView::Chat(s@),
        }
    }
}

/// What the bot does about the group message `raw`: a message that does not
/// start with `!!` is counted; otherwise its first word names the command, and
/// a first word that names no command is counted too.
pub open spec fn action_for(raw: Seq<char>) -> ActionView {
    let c = command_of(raw);
    if !has_prefix(raw, "!!"@) {
        ActionView::Count
    } else if c == "!!ping"@ {
        ActionView::Reply("pong!!"@)
    } else if c == "!!daily-rank"@ {
        ActionView::DailyRank
    } else if c == "!!total-rank"@ {
        ActionView::TotalRank
    } else if c == "!!petpet-list"@ {
        ActionView::PetList
    } else if c == "!!群友老婆"@ {
        ActionView::Wife
    } else if c == "!!抽签"@ {
        ActionView::Fortune
    } else if c == "!!chat"@ {
        ActionView::Chat(seq_join(args_of(raw), " "@))
    } else {
        ActionView::Count
    }
}

/// Decides what to do about a group message.
pub fn analyze_message(raw_message: &str) -> (action: BotAction)
    ensures
        action@ == action_for(raw_message@),
{
    let raw = chars_of(raw_message);
    let bang = chars_of("!!");
    if !starts_with_chars(&raw, &bang) {
        return BotAction::Count;
    }
    let (command, args) = parse_message(raw_message);
    if str_eq(command, "!!ping") {
        BotAction::Reply(String::from_str("pong!!"))
    } else if str_eq(command, "!!daily-rank") {
        BotAction::DailyRank
    } else if str_eq(command, "!!total-rank") {
        BotAction::TotalRank
    } else if str_eq(command, "!!petpet-list") {
        BotAction::PetList
    } else if str_eq(command, "!!群友老婆") {
        BotAction::Wife
    } else if str_eq(command, "!!抽签") {
        BotAction::Fortune
    } else if str_eq(command, "!!chat") {
        BotAction::Chat(join(&args, " "))
    } else {
        BotAction::Count
    }
}

/// A field of an event from the gateway, as far as the bot reads it.
#[derive(Debug, Clone)]
pub enum EventField {
    /// The event has no such field.
    Absent,
    /// The field holds this text.
    Text(String),
    /// The field holds something other than text.
    Other,
}

/// The abstract value of an [`EventField`].
pub enum EventFieldView {
    Absent,
    Text(Seq<char>),
    Other,
}

impl View for EventField {
    type V = EventFieldView;

    open spec fn view(&self) -> EventFieldView {
        match self {
            EventField::Absent => EventFieldView::Absent,
            EventField::Text(s) => EventFieldView::Text(s@),
            EventField::Other => EventFieldView::Other,
        }
    }
}

/// The fields of an event from the gateway that the bot reads: a number or a
/// text is `None` when the field is absent or of another kind.
#[derive(Debug, Clone)]
pub struct PostBody {
    pub post_type: EventField,
    pub message_type: EventField,
    pub group_id: Option<i64>,
    pub user_id: Option<i64>,
    pub raw_message: Option<String>,
}

/// The abstract value of a [`PostBody`].
pub struct PostBodyView {
    pub post_type: EventFieldView,
    pub message_type: EventFieldView,
    pub group_id: Option<i64>,
    pub user_id: Option<i64>,
    pub raw_message: Option<Seq<char>>,
}

impl View for PostBody {
    type V = PostBodyView;

    open spec fn view(&self) -> PostBodyView {
        PostBodyView {
            post_type: self.post_type@,
            message_type: self.message_type@,
            group_id: self.group_id,
            user_id: self.user_id,
            raw_message: match self.raw_message {
                Some(s) => Some(s@),
                None => None,
            },
        }
    }
}

/// A group message that the bot acts on.
#[derive(Debug)]
pub struct GroupMessage {
    pub group_id: i64,
    pub user_id: i64,
    pub action: BotAction,
}

impl View for GroupMessage {
    type V = (i64, i64, ActionView);

    open spec fn view(&self) -> (i64, i64, ActionView) {
        (self.group_id, self.user_id, self.action@)
    }
}

pub open spec fn field_is(f: EventFieldView, text: Seq<char>) -> bool {
    f matches EventFieldView::Text(s) && s == text
}

/// The event is a message, posted in a group.
pub open spec fn is_group_message(body: PostBodyView) -> bool {
    field_is(body.post_type, "message"@) && field_is(body.message_type, "group"@)
}

/// The event holds what the bot reads of it: a message event names its kind
/// of message, and a group message carries the group, the sender and the
/// text.
pub open spec fn post_body_complete(body: PostBodyView) -> bool {
    &&& field_is(body.post_type, "message"@) ==> !(body.message_type is Absent)
    &&& is_group_message(body) ==> {
        &&& body.group_id is Some
        &&& body.user_id is Some
        &&& body.raw_message is Some
    }
}

/// What the bot does about an event: nothing unless it is a group message;
/// for a group message, its group, its sender and the action its text calls
/// for.
pub open spec fn group_message_of(body: PostBodyView) -> Option<(i64, i64, ActionView)> {
    if is_group_message(body) {
        Some((body.group_id->0, body.user_id->0, action_for(body.raw_message->0)))
    } else {
        None
    }
}

fn field_is_text(f: &EventField, text: &str) -> (res: bool)
    ensures
        res == field_is(f@, text@),
{
    match f {
        EventField::Text(s) => str_eq(s.as_str(), text),
        _ => false,
    }
}

/// What the bot does about an event.
pub fn analyze_post_body(body: &PostBody) -> (res: Option<GroupMessage>)
    requires
        post_body_complete(body@),
    ensures
        match group_message_of(body@) {
            Some(g) => res matches Some(m) && m@ == g,
            None => res is None,
        },
{
    if !(field_is_text(&body.post_type, "message") && field_is_text(&body.message_type, "group")) {
        return None;
    }
    let group_id = match body.group_id {
        Some(g) => g,
        None => {
            assert(false);
            0
        },
    };
    let user_id = match body.user_id {
        Some(u) => u,
        None => {
            assert(false);
            0
        },
    };
    match &body.raw_message {
        Some(raw) => Some(GroupMessage { group_id, user_id, action: analyze_message(raw.as_str()) }),
        None => {
            assert(false);
            None
        },
    }
}

/// How a field of a JSON object reads as an event field.
pub open spec fn event_field_of(m: Map<Seq<char>, JsonFieldView>, key: Seq<char>) -> EventFieldView {
    if !m.contains_key(key) {
        EventFieldView::Absent
    } else {
        match m[key] {
            JsonFieldView::Text(s) => EventFieldView::Text(s),
            _ => EventFieldView::Other,
        }
    }
}

/// The number in a field of a JSON object, if it holds one that fits `i64`.
pub open spec fn integer_field_of(m: Map<Seq<char>, JsonFieldView>, key: Seq<char>) -> Option<i64> {
    if m.contains_key(key) && m[key] is Integer {
        Some(m[key]->Integer_0)
    } else {
        None
    }
}

/// The text in a field of a JSON object, if it holds text.
pub open spec fn text_field_of(m: Map<Seq<char>, JsonFieldView>, key: Seq<char>) -> Option<Seq<char>> {
    if m.contains_key(key) && m[key] is Text {
        Some(m[key]->Text_0)
    } else {
        None
    }
}

/// The event that a JSON object describes.
pub open spec fn post_body_of(m: Map<Seq<char>, JsonFieldView>) -> PostBodyView {
    PostBodyView {
        post_type: event_field_of(m, "post_type"@),
        message_type: event_field_of(m, "message_type"@),
        group_id: integer_field_of(m, "group_id"@),
        user_id: integer_field_of(m, "user_id"@),
        raw_message: text_field_of(m, "raw_message"@),
    }
}

fn event_field(o: &JsonObject, key: &str) -> (f: EventField)
    ensures
        f@ == event_field_of(o@, key@),
{
    match o.get(key) {
        None => EventField::Absent,
        Some(JsonField::Text(s)) => EventField::Text(s.clone()),
        Some(_) => EventField::Other,
    }
}

fn integer_field(o: &JsonObject, key: &str) -> (r: Option<i64>)
    ensures
        r == integer_field_of(o@, key@),
{
    match o.get(key) {
        Some(JsonField::Integer(i)) => Some(*i),
        _ => None,
    }
}

fn text_field(o: &JsonObject, key: &str) -> (r: Option<String>)
    ensures
        match text_field_of(o@, key@) {
            Some(t) => r matches Some(s) && s@ == t,
            None => r is None,
        },
{
    match o.get(key) {
        Some(JsonField::Text(s)) => Some(s.clone()),
        _ => None,
    }
}

/// The event that a JSON object describes.
pub fn post_body_from_json(o: &JsonObject) -> (b: PostBody)
    ensures
        b@ == post_body_of(o@),
{
    PostBody {
        post_type: event_field(o, "post_type"),
        message_type: event_field(o, "message_type"),
        group_id: integer_field(o, "group_id"),
        user_id: integer_field(o, "user_id"),
        raw_message: text_field(o, "raw_message"),
    }
}

/// Why an event could not be read.
#[derive(Debug, PartialEq, Eq, Structural)]
pub enum PostError {
    /// The request body is not a JSON object.
    NotJsonObject,
    /// A message event lacks a field the bot reads.
    Incomplete,
}

/// What the bot does about the raw body of an event request: an error when
/// the body is not a JSON object or lacks a field the bot reads, and
/// otherwise what [`analyze_post_body`] decides.
pub fn analyze_raw_post_body(bytes: &[u8]) -> (r: Result<Option<GroupMessage>, PostError>)
    ensures
        match json_object_fields(bytes@) {
            None => r == Err::<Option<GroupMessage>, PostError>(PostError::NotJsonObject),
            Some(m) => if !post_body_complete(post_body_of(m)) {
                r == Err::<Option<GroupMessage>, PostError>(PostError::Incomplete)
            } else {
                r matches Ok(res) && match group_message_of(post_body_of(m)) {
                    Some(g) => res matches Some(gm) && gm@ == g,
                    None => res is None,
                }
            },
        },
{
    let o = match read_json_object(bytes) {
        Some(o) => o,
        None => return Err(PostError::NotJsonObject),
    };
    let body = post_body_from_json(&o);
    let is_message = field_is_text(&body.post_type, "message");
    let is_group = is_message && field_is_text(&body.message_type, "group");
    let missing_kind = match body.message_type {
        EventField::Absent => true,
        _ => false,
    };
    if (is_message && missing_kind) || (is_group && (body.group_id.is_none() || body.user_id.is_none()
        || body.raw_message.is_none())) {
        return Err(PostError::Incomplete);
    }
    Ok(analyze_post_body(&body))
}

/// Seconds in a day.
pub const DAY_SECS: u64 = 86400;

/// When in the day the daily work runs, in seconds after midnight (UTC).
pub const DAILY_WORK_TIME: u64 = 72000;

/// How long to wait, from the UNIX time `now`, until the daily work runs next:
/// until the work time of this day when it is still ahead, else until that of
/// the next day.
pub fn seconds_until_daily_work(now: u64) -> (wait: u64)
    requires
        now - now % DAY_SECS + DAILY_WORK_TIME <= u64::MAX,
        now % DAY_SECS >= DAILY_WORK_TIME ==> now - now % DAY_SECS + DAILY_WORK_TIME + DAY_SECS <= u64::MAX,
    ensures
        wait == if now % DAY_SECS < DAILY_WORK_TIME {
            DAILY_WORK_TIME - now % DAY_SECS
        } else {
            DAILY_WORK_TIME + DAY_SECS - now % DAY_SECS
        },
        1 <= wait <= DAY_SECS,
        (now + wait) % (DAY_SECS as int) == DAILY_WORK_TIME,
{
    let target_time = now - (now % DAY_SECS) + DAILY_WORK_TIME;
    let wait = if now < target_time {
        target_time - now
    } else {
        target_time + DAY_SECS - now
    };
    assert((now + wait) % (DAY_SECS as int) == DAILY_WORK_TIME) by (nonlinear_arith)
        requires
            target_time == now - (now % 86400) + 72000,
            wait == if now < target_time { target_time - now } else { target_time + 86400 - now },
            now % 86400 < 86400,
    ;
    wait
}

} // verus!

verus! {

/// A group message event is read field for field: when the event's JSON
/// object says it is a message posted in a group and holds the integers `g`
/// and `u` as `group_id` and `user_id` and the text `raw` as `raw_message`,
/// the bot acts for exactly that group and that sender, on exactly that text.
pub proof fn lemma_group_event_read_exactly(
    m: Map<Seq<char>, JsonFieldView>,
    g: i64,
    u: i64,
    raw: Seq<char>,
)
    requires
        m.contains_key("post_type"@) && m["post_type"@] == JsonFieldView::Text("message"@),
        m.contains_key("message_type"@) && m["message_type"@] == JsonFieldView::Text("group"@),
        m.contains_key("group_id"@) && m["group_id"@] == JsonFieldView::Integer(g),
        m.contains_key("user_id"@) && m["user_id"@] == JsonFieldView::Integer(u),
        m.contains_key("raw_message"@) && m["raw_message"@] == JsonFieldView::Text(raw),
    ensures
        post_body_complete(post_body_of(m)),
        group_message_of(post_body_of(m)) == Some((g, u, action_for(raw))),
{
}

/// The bot acts only on group messages: whenever it acts on an event, the
/// event's JSON object holds the text `message` as `post_type` and the text
/// `group` as `message_type`, and the group and the sender it acts for are
/// the integers the object holds as `group_id` and `user_id`.
pub proof fn lemma_acts_only_on_group_messages(m: Map<Seq<char>, JsonFieldView>)
    requires
        post_body_complete(post_body_of(m)),
    ensures
        group_message_of(post_body_of(m)) matches Some(acted) ==> {
            &&& m.contains_key("post_type"@) && m["post_type"@] == JsonFieldView::Text("message"@)
            &&& m.contains_key("message_type"@) && m["message_type"@] == JsonFieldView::Text("group"@)
            &&& m.contains_key("group_id"@)
            &&& m["group_id"@] == JsonFieldView::Integer(acted.0)
            &&& m.contains_key("user_id"@)
            &&& m["user_id"@] == JsonFieldView::Integer(acted.1)
        },
{
}

proof fn lemma_command_read(cmd: Seq<char>, c: char, rest: Seq<char>)
    requires
        cmd.len() >= 2,
        cmd[0] == '!',
        cmd[1] == '!',
        no_white_space(cmd),
        is_white_space(c),
    ensures
        has_prefix(cmd, "!!"@),
        command_of(cmd) == cmd,
        args_of(cmd) == Seq::<Seq<char>>::empty(),
        has_prefix(cmd + seq![c] + rest, "!!"@),
        command_of(cmd + seq![c] + rest) == cmd,
        args_of(cmd + seq![c] + rest) == words(rest),
{
    reveal_strlit("!!");
    lemma_words_after_word(cmd, c, rest);
    assert(cmd.take(2) =~= "!!"@);
    assert((cmd + seq![c] + rest).take(2) =~= "!!"@);
    assert(seq![cmd].skip(1) =~= Seq::<Seq<char>>::empty());
    assert((seq![cmd] + words(rest)).skip(1) =~= words(rest));
}

/// The commands a group message can give, each as its first word, alone or
/// followed by whitespace (a space, a tab, a line break, a carriage return
/// or any other) and more text: `!!ping` is answered `pong!!`, `!!daily-rank`
/// and `!!total-rank` ask for the rankings, `!!petpet-list` for the list of
/// image commands, `!!群友老婆` for a partner, `!!抽签` for a fortune, and
/// `!!chat` asks the chat model the words after it, joined by single spaces.
pub proof fn lemma_commands(c: char, rest: Seq<char>)
    requires
        is_white_space(c),
    ensures
        action_for("!!ping"@) == ActionView::Reply("pong!!"@),
        action_for("!!ping"@ + seq![c] + rest) == ActionView::Reply("pong!!"@),
        action_for("!!daily-rank"@) == ActionView::DailyRank,
        action_for("!!daily-rank"@ + seq![c] + rest) == ActionView::DailyRank,
        action_for("!!total-rank"@) == ActionView::TotalRank,
        action_for("!!total-rank"@ + seq![c] + rest) == ActionView::TotalRank,
        action_for("!!petpet-list"@) == ActionView::PetList,
        action_for("!!petpet-list"@ + seq![c] + rest) == ActionView::PetList,
        action_for("!!群友老婆"@) == ActionView::Wife,
        action_for("!!群友老婆"@ + seq![c] + rest) == ActionView::Wife,
        action_for("!!抽签"@) == ActionView::Fortune,
        action_for("!!抽签"@ + seq![c] + rest) == ActionView::Fortune,
        action_for("!!chat"@ + seq![c] + rest) == ActionView::Chat(seq_join(words(rest), " "@)),
{
    reveal_strlit("!!ping");
    reveal_strlit("!!daily-rank");
    reveal_strlit("!!total-rank");
    reveal_strlit("!!petpet-list");
    reveal_strlit("!!群友老婆");
    reveal_strlit("!!抽签");
    reveal_strlit("!!chat");
    assert(no_white_space("!!ping"@));
    assert(no_white_space("!!daily-rank"@));
    assert(no_white_space("!!total-rank"@));
    assert(no_white_space("!!petpet-list"@));
    assert(no_white_space("!!群友老婆"@));
    assert(no_white_space("!!抽签"@));
    assert(no_white_space("!!chat"@));
    assert("!!total-rank"@[2] != "!!daily-rank"@[2]);
    assert("!!total-rank"@ != "!!daily-rank"@);
    lemma_command_read("!!ping"@, c, rest);
    lemma_command_read("!!daily-rank"@, c, rest);
    lemma_command_read("!!total-rank"@, c, rest);
    lemma_command_read("!!petpet-list"@, c, rest);
    lemma_command_read("!!群友老婆"@, c, rest);
    lemma_command_read("!!抽签"@, c, rest);
    lemma_command_read("!!chat"@, c, rest);
}

} // verus!
