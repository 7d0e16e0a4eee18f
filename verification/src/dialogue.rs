//! Conversation histories: what is kept of them, how they are written out,
//! and the chat-model requests built from them.

use vstd::prelude::*;

use crate::file_io::id_file_path;
use crate::mytype::{ChatMessage, ChatMessageView, GPTModel, GPTRequestBody, history_view};
use crate::text::int_decimal;

verus! {

/// The number of messages a stored conversation holds at most.
pub const MAX_STORED_MESSAGES: usize = 200;

/// The character budget of the stored conversations.
pub const STORED_CHARS_LIMIT: usize = 3000;

/// The number of characters in the contents of a conversation.
pub open spec fn total_chars(h: Seq<ChatMessageView>) -> nat
    decreases h.len(),
{
    if h.len() == 0 {
        0
    } else {
        total_chars(h.drop_last()) + h.last().content.len()
    }
}

/// A conversation fits when its contents hold at most `limit` characters and
/// it has at most [`MAX_STORED_MESSAGES`] messages.
pub open spec fn fits(h: Seq<ChatMessageView>, limit: nat) -> bool {
    total_chars(h) <= limit && h.len() <= MAX_STORED_MESSAGES
}

/// The conversation after its oldest messages are dropped, one by one, until
/// it fits.
pub open spec fn trim_front(h: Seq<ChatMessageView>, limit: nat) -> Seq<ChatMessageView>
    decreases h.len(),
{
    if h.len() == 0 || fits(h, limit) {
        h
    } else {
        trim_front(h.drop_first(), limit)
    }
}

proof fn lemma_total_chars_prefix(h: Seq<ChatMessageView>, k: int)
    requires
        0 <= k <= h.len(),
    ensures
        total_chars(h.take(k)) <= total_chars(h),
    decreases h.len() - k,
{
    if k < h.len() {
        lemma_total_chars_prefix(h, k + 1);
        assert(h.take(k + 1).drop_last() =~= h.take(k));
    } else {
        assert(h.take(k) =~= h);
    }
}

/// Whether the contents of `h` hold more than `limit` characters.
fn exceeds_chars(h: &Vec<ChatMessage>, limit: usize) -> (res: bool)
    ensures
        res == (total_chars(history_view(h@)) > limit),
{
    let ghost hv = history_view(h@);
    let mut sum: usize = 0;
    let mut i: usize = 0;
    while i < h.len()
        invariant
            hv == history_view(h@),
            i <= h.len(),
            sum == total_chars(hv.take(i as int)),
            sum <= limit,
        decreases h.len() - i,
    {
        let n = h[i].content.as_str().unicode_len();
        assert(hv.take(i + 1).drop_last() =~= hv.take(i as int));
        assert(hv.take(i + 1).last() == h@[i as int]@);
        if n > limit - sum {
            proof {
                lemma_total_chars_prefix(hv, i + 1);
            }
            return true;
        }
        sum = sum + n;
        i = i + 1;
    }
    assert(hv.take(h.len() as int) =~= hv);
    false
}

/// Adds `new_message` to the end of a conversation, then drops its oldest
/// messages until it holds at most `max_length_limit` characters and at most
/// [`MAX_STORED_MESSAGES`] messages.
pub fn storage_chat_message(history: Vec<ChatMessage>, new_message: ChatMessage, max_length_limit: usize) -> (res: Vec<ChatMessage>)
    ensures
        history_view(res@) == trim_front(
            history_view(history@).push(new_message@),
            max_length_limit as nat,
        ),
{
    let mut data = history;
    let ghost target = trim_front(history_view(data@).push(new_message@), max_length_limit as nat);
    let ghost before = data@;
    let ghost added = new_message;
    data.push(new_message);
    assert(history_view(data@) =~= history_view(before).push(added@));
    loop
        invariant
            trim_front(history_view(data@), max_length_limit as nat) == target,
            target == trim_front(history_view(history@).push(new_message@), max_length_limit as nat),
        decreases data.len(),
    {
        let over = exceeds_chars(&data, max_length_limit) || data.len() > MAX_STORED_MESSAGES;
        if !over || data.len() == 0 {
            assert(fits(history_view(data@), max_length_limit as nat) || data@.len() == 0);
            assert(trim_front(history_view(data@), max_length_limit as nat) == history_view(data@));
            return data;
        }
        let ghost before = history_view(data@);
        data.remove(0);
        assert(history_view(data@) =~= before.drop_first());
    }
}

/// What a stored conversation keeps: dropping the oldest messages leaves the
/// longest run of newest messages that fits, and what is left always fits.
pub proof fn lemma_trim_front_keeps_longest_fitting_suffix(h: Seq<ChatMessageView>, limit: nat)
    ensures
        fits(trim_front(h, limit), limit),
        exists|k: int|
            0 <= k <= h.len() && trim_front(h, limit) == h.skip(k) && forall|j: int|
                0 <= j < k ==> !fits(#[trigger] h.skip(j), limit),
    decreases h.len(),
{
    if h.len() == 0 || fits(h, limit) {
        assert(h.skip(0) =~= h);
        if h.len() == 0 {
            assert(total_chars(h) == 0);
        }
    } else {
        let t = h.drop_first();
        lemma_trim_front_keeps_longest_fitting_suffix(t, limit);
        let k0 = choose|k: int|
            0 <= k <= t.len() && trim_front(t, limit) == t.skip(k) && forall|j: int|
                0 <= j < k ==> !fits(#[trigger] t.skip(j), limit);
        assert(t.skip(k0) =~= h.skip(k0 + 1));
        assert forall|j: int| 0 <= j < k0 + 1 implies !fits(#[trigger] h.skip(j), limit) by {
            if j == 0 {
                assert(h.skip(0) =~= h);
            } else {
                assert(h.skip(j) =~= t.skip(j - 1));
            }
        }
    }
}

/// One line of a written-out conversation: `role:content` and a newline.
pub open spec fn chat_line(m: ChatMessageView) -> Seq<char> {
    m.role + ":"@ + m.content + "\n"@
}

/// The lines of a conversation, in order.
pub open spec fn chat_lines(h: Seq<ChatMessageView>) -> Seq<char>
    decreases h.len(),
{
    if h.len() == 0 {
        Seq::empty()
    } else {
        chat_lines(h.drop_last()) + chat_line(h.last())
    }
}

/// The last `cnt` messages of a conversation, or all of them when it is
/// shorter.
pub open spec fn last_messages(h: Seq<ChatMessageView>, cnt: nat) -> Seq<ChatMessageView> {
    if h.len() > cnt {
        h.skip(h.len() - cnt)
    } else {
        h
    }
}

/// The last `cnt` messages of a conversation written out one per line as
/// `role:content`.
pub fn transfer_chat_message_to_string(data: &Vec<ChatMessage>, cnt: usize) -> (res: String)
    ensures
        res@ == chat_lines(last_messages(history_view(data@), cnt as nat)),
{
    let mut result = String::new();
    let len = data.len();
    let last_n_element = if len > cnt {
        cnt
    } else {
        len
    };
    let start = len - last_n_element;
    let ghost hv = history_view(data@);
    let ghost tail = last_messages(hv, cnt as nat);
    assert(tail =~= hv.subrange(start as int, len as int));
    let mut i = start;
    assert(hv.subrange(start as int, start as int) =~= Seq::<ChatMessageView>::empty());
    while i < len
        invariant
            len == data.len(),
            hv == history_view(data@),
            start <= i <= len,
            result@ == chat_lines(hv.subrange(start as int, i as int)),
        decreases len - i,
    {
        let m = &data[i];
        assert(hv.subrange(start as int, i + 1).drop_last() =~= hv.subrange(start as int, i as int));
        assert(hv.subrange(start as int, i + 1).last() == m@);
        result.append(m.role.as_str());
        result.append(":");
        result.append(m.content.as_str());
        result.append("\n");
        assert(result@ =~= chat_lines(hv.subrange(start as int, i + 1)));
        i = i + 1;
    }
    result
}

/// The file that holds a group's conversation.
pub fn qq_dialogue_path(group_id: i64) -> (p: String)
    ensures
        p@ == "./data/dialogue/qq/"@ + int_decimal(group_id as int) + ".json"@,
{
    id_file_path("./data/dialogue/qq/", group_id, ".json")
}

/// The file that holds a user's conversation with the chat model.
pub fn gpt_dialogue_path(user_id: i64) -> (p: String)
    ensures
        p@ == "./data/dialogue/gpt/"@ + int_decimal(user_id as int) + ".json"@,
{
    id_file_path("./data/dialogue/gpt/", user_id, ".json")
}

/// The conversation file to empty when a user's conversation with the chat
/// model is cleared.
pub fn clear_gpt_chat_message(user_id: i64) -> (p: String)
    ensures
        p@ == "./data/dialogue/gpt/"@ + int_decimal(user_id as int) + ".json"@,
{
    gpt_dialogue_path(user_id)
}

/// Adds a message to a conversation kept under the usual budget of
/// [`STORED_CHARS_LIMIT`] characters.
pub fn storage_gpt_message(history: Vec<ChatMessage>, message: ChatMessage) -> (res: Vec<ChatMessage>)
    ensures
        history_view(res@) == trim_front(
            history_view(history@).push(message@),
            STORED_CHARS_LIMIT as nat,
        ),
{
    storage_chat_message(history, message, STORED_CHARS_LIMIT)
}

/// A group conversation after someone said `message`: unchanged when the
/// message is empty, and otherwise with the message added under the usual
/// budget.
pub fn storage_qq_message(history: Vec<ChatMessage>, message: String, role: String) -> (res: Vec<ChatMessage>)
    ensures
        message@.len() == 0 ==> res == history,
        message@.len() > 0 ==> history_view(res@) == trim_front(
            history_view(history@).push(ChatMessageView { role: role@, content: message@ }),
            STORED_CHARS_LIMIT as nat,
        ),
{
    if message.as_str().is_empty() {
        return history;
    }
    let m = ChatMessage::new(role, message);
    storage_chat_message(history, m, STORED_CHARS_LIMIT)
}

/// A conversation after each of `source` has been added to it in turn, each
/// under the usual budget.
pub open spec fn store_all(history: Seq<ChatMessageView>, source: Seq<ChatMessageView>) -> Seq<ChatMessageView>
    decreases source.len(),
{
    if source.len() == 0 {
        history
    } else {
        trim_front(store_all(history, source.drop_last()).push(source.last()), STORED_CHARS_LIMIT as nat)
    }
}

/// A user's conversation with the chat model after a character sheet of
/// messages has been loaded into it, message by message.
pub fn load_gpt_chat_characters(source_messages: Vec<ChatMessage>, history: Vec<ChatMessage>) -> (res: Vec<ChatMessage>)
    ensures
        history_view(res@) == store_all(history_view(history@), history_view(source_messages@)),
        source_messages@.len() > 0 ==> fits(history_view(res@), STORED_CHARS_LIMIT as nat),
{
    let ghost sv = history_view(source_messages@);
    let mut h = history;
    let mut i: usize = 0;
    assert(sv.take(0) =~= Seq::<ChatMessageView>::empty());
    while i < source_messages.len()
        invariant
            i <= source_messages.len(),
            sv == history_view(source_messages@),
            history_view(h@) == store_all(history_view(history@), sv.take(i as int)),
        decreases source_messages.len() - i,
    {
        let m = source_messages[i].duplicate();
        assert(sv.take(i + 1).drop_last() =~= sv.take(i as int));
        assert(sv.take(i + 1).last() == m@);
        h = storage_gpt_message(h, m);
        i = i + 1;
    }
    assert(sv.take(source_messages.len() as int) =~= sv);
    proof {
        if sv.len() > 0 {
            lemma_loaded_conversation_fits(history_view(history@), sv);
        }
    }
    h
}

proof fn lemma_total_chars_push(h: Seq<ChatMessageView>, m: ChatMessageView)
    ensures
        total_chars(h.push(m)) == total_chars(h) + m.content.len(),
{
    assert(h.push(m).drop_last() =~= h);
}

/// Trimming before a message is added changes nothing: the conversation
/// trimmed, extended and trimmed again is the extended conversation trimmed.
proof fn lemma_trim_then_push(h: Seq<ChatMessageView>, m: ChatMessageView, limit: nat)
    ensures
        trim_front(trim_front(h, limit).push(m), limit) == trim_front(h.push(m), limit),
    decreases h.len(),
{
    if h.len() == 0 || fits(h, limit) {
    } else {
        lemma_total_chars_push(h, m);
        assert(!fits(h.push(m), limit));
        assert(h.push(m).drop_first() =~= h.drop_first().push(m));
        lemma_trim_then_push(h.drop_first(), m, limit);
    }
}

proof fn lemma_store_all_trims_whole(history: Seq<ChatMessageView>, source: Seq<ChatMessageView>)
    requires
        source.len() > 0,
    ensures
        store_all(history, source) == trim_front(history + source, STORED_CHARS_LIMIT as nat),
    decreases source.len(),
{
    let rest = source.drop_last();
    assert((history + rest).push(source.last()) =~= history + source);
    assert(store_all(history, source) == trim_front(
        store_all(history, rest).push(source.last()),
        STORED_CHARS_LIMIT as nat,
    ));
    if rest.len() == 0 {
        assert(history + rest =~= history);
        assert(store_all(history, rest) == history);
    } else {
        lemma_store_all_trims_whole(history, rest);
        lemma_trim_then_push(history + rest, source.last(), STORED_CHARS_LIMIT as nat);
    }
}

/// A conversation into which a non-empty character sheet has been loaded
/// always fits the budget ([`STORED_CHARS_LIMIT`] characters and
/// [`MAX_STORED_MESSAGES`] messages), and it is the longest run of newest
/// messages of the old conversation followed by the sheet that fits.
pub proof fn lemma_loaded_conversation_fits(history: Seq<ChatMessageView>, source: Seq<ChatMessageView>)
    requires
        source.len() > 0,
    ensures
        fits(store_all(history, source), STORED_CHARS_LIMIT as nat),
        store_all(history, source).len() <= MAX_STORED_MESSAGES,
        total_chars(store_all(history, source)) <= STORED_CHARS_LIMIT,
        exists|k: int|
            0 <= k <= (history + source).len() && store_all(history, source) == (history + source).skip(k)
                && forall|j: int| 0 <= j < k ==> !fits(#[trigger] (history + source).skip(j), STORED_CHARS_LIMIT as nat),
{
    lemma_store_all_trims_whole(history, source);
    lemma_trim_front_keeps_longest_fitting_suffix(history + source, STORED_CHARS_LIMIT as nat);
}

/// A request that asks the chat model about a single text.
pub fn transfer_single_string_to_gpt_request_body(message: String) -> (b: GPTRequestBody)
    ensures
        b@.model == GPTModel::default_spec(),
        b@.prompt == Seq::<char>::empty(),
        b@.messages == seq![ChatMessageView { role: "user"@, content: message@ }],
{
    let gpt_message = ChatMessage::default(message);
    let messages = vec![gpt_message];
    let gpt_model = GPTModel::default();
    let b = GPTRequestBody::new(gpt_model, messages);
    assert(b@.messages =~= seq![ChatMessageView { role: "user"@, content: message@ }]);
    b
}

/// A request that asks the chat model about a single message.
pub fn transfer_single_message_to_gpt_request_body(message: String) -> (b: GPTRequestBody)
    ensures
        b@.model == GPTModel::default_spec(),
        b@.prompt == Seq::<char>::empty(),
        b@.messages == seq![ChatMessageView { role: "user"@, content: message@ }],
{
    transfer_single_string_to_gpt_request_body(message)
}

/// A request that hands a whole conversation to the chat model.
pub fn transfer_messages_to_gpt_request_body(messages: Vec<ChatMessage>) -> (b: GPTRequestBody)
    ensures
        b@.model == GPTModel::default_spec(),
        b@.prompt == Seq::<char>::empty(),
        b@.messages == history_view(messages@),
{
    let gpt_model = GPTModel::default();
    GPTRequestBody::new(gpt_model, messages)
}

/// The user's message as the chat model sees it.
pub open spec fn user_message(text: Seq<char>) -> ChatMessageView {
    ChatMessageView { role: "user"@, content: text }
}

/// A turn of the chat with the model: the request, which holds the stored
/// conversation and then the user's new message, and the stored conversation
/// with that message added under the usual budget.
pub fn normal_chat_to_gpt(history: Vec<ChatMessage>, message: String) -> (res: (GPTRequestBody, Vec<ChatMessage>))
    ensures
        res.0@.model == GPTModel::default_spec(),
        res.0@.prompt == Seq::<char>::empty(),
        res.0@.messages == history_view(history@).push(user_message(message@)),
        history_view(res.1@) == trim_front(
            history_view(history@).push(user_message(message@)),
            STORED_CHARS_LIMIT as nat,
        ),
{
    let new_message = ChatMessage::default(message);
    let stored_message = new_message.duplicate();
    let mut messages: Vec<ChatMessage> = Vec::new();
    let mut i: usize = 0;
    while i < history.len()
        invariant
            i <= history.len(),
            history_view(messages@) == history_view(history@.take(i as int)),
        decreases history.len() - i,
    {
        let ghost prev = messages@;
        let m = history[i].duplicate();
        messages.push(m);
        assert(history@.take(i + 1) =~= history@.take(i as int).push(history@[i as int]));
        assert(history_view(messages@) =~= history_view(prev).push(m@));
        assert(history_view(history@.take(i + 1)) =~= history_view(history@.take(i as int)).push(m@));
        i = i + 1;
    }
    assert(history@.take(history.len() as int) =~= history@);
    let ghost before = messages@;
    messages.push(new_message);
    assert(history_view(messages@) =~= history_view(before).push(user_message(message@)));
    let request_body = transfer_messages_to_gpt_request_body(messages);
    let stored = storage_gpt_message(history, stored_message);
    (request_body, stored)
}

/// The model's reply as a turn of the conversation.
pub fn assistant_message(content: String) -> (m: ChatMessage)
    ensures
        m.role@ == "assistant"@,
        m.content == content,
{
    ChatMessage::new(String::from_str("assistant"), content)
}

/// What the chat model is asked when a group's conversation is summarised.
pub open spec fn summary_header() -> Seq<char> {
    "以下为一段群聊的聊天记录，请总结主要聊天内容并概括每个人的聊天方式与性格\n"@
}

/// A request that asks the chat model to summarise the last `cnt` messages of
/// a group's conversation and to sketch each speaker.
pub fn summarize_qq_message_via_gpt(history: &Vec<ChatMessage>, cnt: usize) -> (b: GPTRequestBody)
    ensures
        b@.model == GPTModel::default_spec(),
        b@.prompt == Seq::<char>::empty(),
        b@.messages == seq![
            user_message(summary_header() + chat_lines(last_messages(history_view(history@), cnt as nat))),
        ],
{
    let request_string = String::from_str(
        "以下为一段群聊的聊天记录，请总结主要聊天内容并概括每个人的聊天方式与性格\n",
    );
    let lines = transfer_chat_message_to_string(history, cnt);
    let request_string = request_string.concat(lines.as_str());
    transfer_single_string_to_gpt_request_body(request_string)
}

/// A stored message is never lost to the budget by itself: after a message is
/// added, the conversation ends with it whenever it fits the budget alone.
pub proof fn lemma_newest_message_kept(h: Seq<ChatMessageView>, m: ChatMessageView, limit: nat)
    requires
        m.content.len() <= limit,
    ensures
        trim_front(h.push(m), limit).len() >= 1,
        trim_front(h.push(m), limit).last() == m,
{
    let s = h.push(m);
    lemma_trim_front_keeps_longest_fitting_suffix(s, limit);
    let k = choose|k: int|
        0 <= k <= s.len() && trim_front(s, limit) == s.skip(k) && forall|j: int|
            0 <= j < k ==> !fits(#[trigger] s.skip(j), limit);
    let last_only = s.skip(s.len() - 1);
    assert(last_only =~= seq![m]);
    assert(last_only.drop_last() =~= Seq::<ChatMessageView>::empty());
    assert(total_chars(last_only.drop_last()) == 0);
    assert(last_only.last() == m);
    assert(total_chars(last_only) == m.content.len());
    assert(fits(last_only, limit));
    assert(k <= s.len() - 1);
}

/// `t` is a suffix of `s`.
pub open spec fn has_suffix(s: Seq<char>, t: Seq<char>) -> bool {
    t.len() <= s.len() && s.skip(s.len() - t.len()) == t
}

proof fn lemma_chat_lines_prepend(m: ChatMessageView, h: Seq<ChatMessageView>)
    ensures
        chat_lines(seq![m] + h) == chat_line(m) + chat_lines(h),
    decreases h.len(),
{
    if h.len() == 0 {
        assert(seq![m] + h =~= seq![m]);
        assert(seq![m].drop_last() =~= Seq::<ChatMessageView>::empty());
        assert(chat_lines(seq![m]) == chat_lines(seq![m].drop_last()) + chat_line(seq![m].last()));
        assert(chat_lines(seq![m]) =~= chat_line(m));
        assert(chat_line(m) + chat_lines(h) =~= chat_line(m));
    } else {
        lemma_chat_lines_prepend(m, h.drop_last());
        assert((seq![m] + h).drop_last() =~= seq![m] + h.drop_last());
        assert((seq![m] + h).last() == h.last());
        assert(chat_lines(seq![m] + h) == chat_lines((seq![m] + h).drop_last()) + chat_line((seq![m] + h).last()));
        assert(chat_line(m) + chat_lines(h) =~= chat_line(m) + chat_lines(h.drop_last()) + chat_line(h.last()));
    }
}

/// Writing out one more message only puts a line in front: the last `cnt`
/// messages written out end the last `cnt + 1` written out; asking for at
/// least as many messages as there are gives the whole conversation; and
/// asking for none, or writing out an empty conversation, gives nothing.
pub proof fn lemma_chat_lines_grow_at_the_front(h: Seq<ChatMessageView>, cnt: nat)
    ensures
        has_suffix(
            chat_lines(last_messages(h, cnt + 1)),
            chat_lines(last_messages(h, cnt)),
        ),
        cnt >= h.len() ==> chat_lines(last_messages(h, cnt)) == chat_lines(last_messages(h, h.len())),
        (cnt == 0 || h.len() == 0) ==> chat_lines(last_messages(h, cnt)) == Seq::<char>::empty(),
{
    let small = chat_lines(last_messages(h, cnt));
    let big = chat_lines(last_messages(h, cnt + 1));
    if h.len() > cnt {
        let start = h.len() - cnt - 1;
        assert(last_messages(h, cnt + 1) =~= seq![h[start]] + last_messages(h, cnt));
        lemma_chat_lines_prepend(h[start], last_messages(h, cnt));
        assert(big == chat_line(h[start]) + small);
        assert(big.skip(big.len() - small.len()) =~= small);
    } else {
        assert(big.skip(big.len() - small.len()) =~= small);
    }
    if cnt == 0 && h.len() > 0 {
        assert(last_messages(h, cnt) =~= Seq::<ChatMessageView>::empty());
    }
}

} // verus!
