//! What the bot answers with: the daily rankings, the partner of the day,
//! fortunes, the list of image commands, and the message segments they are
//! made of.

use rand::seq::SliceRandom;
use vstd::prelude::*;

use crate::file_io::id_file_path;
use crate::json::{JsonField, JsonFieldView, json_object_fields, read_json_object};
use crate::mytype::{FortuneData, FortuneState, Message, MessageView};
use crate::tally::{
    CountMap, active_keys_are_ids, entries_map, entries_view, is_wife_candidate, keys_distinct,
    merge_fits, merged, sorted_desc, wife_candidates,
};
use crate::text::{i64_to_string, int_decimal, nat_decimal, parse_i64, parse_i64_spec, u64_to_string};

verus! {

/// A message segment of type `type_` with the given named fields.
pub open spec fn message_spec(type_: Seq<char>, data: Seq<(Seq<char>, Seq<char>)>) -> MessageView {
    MessageView { type_, data }
}

/// A text segment.
pub fn convert_string_to_message(text: String) -> (m: Message)
    ensures
        m@ == message_spec("text"@, seq![("text"@, text@)]),
{
    let mut data: Vec<(String, String)> = Vec::new();
    data.push((String::from_str("text"), text));
    let m = Message::new(String::from_str("text"), data);
    assert(m@.data =~= seq![("text"@, text@)]);
    m
}

/// A segment that mentions a user.
pub fn at_message(user_id: i64) -> (m: Message)
    ensures
        m@ == message_spec("at"@, seq![("qq"@, int_decimal(user_id as int))]),
{
    let mut data: Vec<(String, String)> = Vec::new();
    data.push((String::from_str("qq"), i64_to_string(user_id)));
    let m = Message::new(String::from_str("at"), data);
    assert(m@.data =~= seq![("qq"@, int_decimal(user_id as int))]);
    m
}

/// What `base64::encode` gives for `bytes`: their encoding in the standard
/// alphabet, with padding.
pub uninterp spec fn base64_standard(bytes: Seq<u8>) -> Seq<char>;

/// `base64::encode`, which encodes bytes in the standard base64 alphabet with
/// padding. The result is named by `base64_standard`; the function panics only
/// when the length of the encoding overflows `usize`.
#[verifier::external_body]
fn base64_encode(bytes: &Vec<u8>) -> (s: String)
    requires
        bytes@.len() <= usize::MAX / 2,
    ensures
        s@ == base64_standard(bytes@),
{
    #[allow(deprecated)]
    base64::encode(bytes)
}

/// An image segment whose picture is given inline as base64 text.
pub fn image_message_from_base64(encoded: String) -> (m: Message)
    ensures
        m@ == message_spec("image"@, seq![("file"@, "base64://"@ + encoded@)]),
{
    let mut data: Vec<(String, String)> = Vec::new();
    let file = String::from_str("base64://").concat(encoded.as_str());
    data.push((String::from_str("file"), file));
    let m = Message::new(String::from_str("image"), data);
    assert(m@.data =~= seq![("file"@, "base64://"@ + encoded@)]);
    m
}

/// An image segment that carries the picture's bytes inline.
pub fn image_message(bytes: &Vec<u8>) -> (m: Message)
    requires
        bytes@.len() <= usize::MAX / 2,
    ensures
        m@ == message_spec("image"@, seq![("file"@, "base64://"@ + base64_standard(bytes@))]),
{
    let encoded = base64_encode(bytes);
    image_message_from_base64(encoded)
}

/// `SliceRandom::choose` with `rand::thread_rng()`: one element of the slice,
/// picked at random, or `None` when the slice is empty. Which element comes
/// back depends on chance.
#[verifier::external_body]
fn choose_one(items: &Vec<i64>) -> (r: Option<i64>)
    ensures
        r is Some <==> items@.len() > 0,
        r matches Some(x) ==> items@.contains(x),
{
    items.choose(&mut rand::thread_rng()).copied()
}

/// The partner of the day of `user_id`: the one already drawn, or else an
/// active member of the group drawn at random who is not `user_id` and nobody's
/// partner yet, who is then recorded as theirs.
pub fn get_wife(wife_connection: &mut CountMap, total: &CountMap, user_id: i64) -> (wife: i64)
    requires
        !old(wife_connection)@.contains_key(int_decimal(user_id as int)) ==> active_keys_are_ids(
            total@,
        ),
        old(wife_connection)@.contains_key(int_decimal(user_id as int)) || exists|w: i64|
            is_wife_candidate(total@, old(wife_connection)@, user_id, w),
    ensures
        old(wife_connection)@.contains_key(int_decimal(user_id as int)) ==> {
            &&& wife == old(wife_connection)@[int_decimal(user_id as int)]
            &&& final(wife_connection)@ == old(wife_connection)@
        },
        !old(wife_connection)@.contains_key(int_decimal(user_id as int)) ==> {
            &&& is_wife_candidate(total@, old(wife_connection)@, user_id, wife)
            &&& final(wife_connection)@ == old(wife_connection)@.insert(int_decimal(user_id as int), wife)
        },
{
    let key = i64_to_string(user_id);
    match wife_connection.get(&key) {
        Some(w) => w,
        None => {
            let active_members = wife_candidates(total, wife_connection, user_id);
            assert(active_members@.len() > 0) by {
                let w = choose|w: i64| is_wife_candidate(total@, wife_connection@, user_id, w);
                assert(active_members@.contains(w));
            }
            let wife = match choose_one(&active_members) {
                Some(w) => w,
                None => {
                    assert(false);
                    0
                },
            };
            wife_connection.insert(key, wife);
            wife
        },
    }
}

/// The words that announce the partner of the day.
pub open spec fn wife_intro() -> Seq<char> {
    "你的今日老婆是"@
}

/// The reply that announces the partner of the day: a mention of the user,
/// the announcement, the partner's avatar, and the partner's name followed by
/// their id in parentheses.
pub fn get_wife_message(user_id: i64, wife: i64, avatar: &Vec<u8>, wife_name: String) -> (res: Vec<Message>)
    requires
        avatar@.len() <= usize::MAX / 2,
    ensures
        res@.len() == 4,
        res@[0]@ == message_spec("at"@, seq![("qq"@, int_decimal(user_id as int))]),
        res@[1]@ == message_spec("text"@, seq![("text"@, wife_intro())]),
        res@[2]@ == message_spec("image"@, seq![("file"@, "base64://"@ + base64_standard(avatar@))]),
        res@[3]@ == message_spec(
            "text"@,
            seq![("text"@, wife_name@ + "("@ + int_decimal(wife as int) + ")"@)],
        ),
{
    let mut messages: Vec<Message> = Vec::new();
    messages.push(at_message(user_id));
    messages.push(convert_string_to_message(String::from_str("你的今日老婆是")));
    messages.push(image_message(avatar));
    let name_text = wife_name.concat("(");
    let id_text = i64_to_string(wife);
    let name_text = name_text.concat(id_text.as_str());
    let name_text = name_text.concat(")");
    messages.push(convert_string_to_message(name_text));
    messages
}

/// How likely each fortune level is: `1` to `5` weigh `1, 2, 3, 2, 1`; any
/// other level weighs nothing.
pub open spec fn fortune_weight_spec(level: usize) -> u32 {
    if level == 1 || level == 5 {
        1
    } else if level == 2 || level == 4 {
        2
    } else if level == 3 {
        3
    } else {
        0
    }
}

/// The weight of a fortune level.
pub fn fortune_weight(level: usize) -> (w: u32)
    ensures
        w == fortune_weight_spec(level),
{
    if level == 1 || level == 5 {
        1
    } else if level == 2 || level == 4 {
        2
    } else if level == 3 {
        3
    } else {
        0
    }
}

/// `SliceRandom::choose_weighted` with `rand::thread_rng()` and the fortune
/// weights: one of the levels, picked at random in proportion to its weight.
/// It fails exactly when no level has a positive weight (an empty slice
/// included); the sum of the weights stays far below `u32::MAX` because the
/// slice is short. Which level comes back depends on chance.
#[verifier::external_body]
fn choose_weighted_level(levels: &Vec<usize>) -> (r: Option<usize>)
    requires
        levels@.len() <= 1000,
    ensures
        r is Some <==> (exists|i: int| 0 <= i < levels@.len() && fortune_weight_spec(levels@[i]) > 0),
        r matches Some(x) ==> levels@.contains(x),
{
    levels.choose_weighted(&mut rand::thread_rng(), |l| fortune_weight(*l)).ok().copied()
}

/// `SliceRandom::shuffle` with `rand::thread_rng()`: the elements, put in a
/// random order by swaps. Which order comes out depends on chance.
#[verifier::external_body]
fn shuffle_indices(v: &mut Vec<usize>)
    ensures
        final(v)@.to_multiset() == old(v)@.to_multiset(),
{
    v.shuffle(&mut rand::thread_rng());
}

/// How many dictionary entries a fortune of `level` shows: two for the
/// extreme levels `1` and `5`, four otherwise.
pub open spec fn fortune_entry_count(level: usize) -> nat {
    if level == 1 || level == 5 {
        2
    } else {
        4
    }
}

/// A fortune drawn for a dictionary of `fortune_len` entries: a level from
/// `1` to `5`, and distinct entries of the dictionary, as many as the level
/// shows or the whole dictionary when it is smaller.
pub open spec fn is_fresh_fortune(s: FortuneState, fortune_len: nat) -> bool {
    &&& 1 <= s.level <= 5
    &&& s.index@.len() == if fortune_len < fortune_entry_count(s.level) {
        fortune_len
    } else {
        fortune_entry_count(s.level)
    }
    &&& s.index@.no_duplicates()
    &&& forall|i: int| 0 <= i < s.index@.len() ==> s.index@[i] < fortune_len
}

/// The fortune for a drawn `level` and the dictionary entries in drawn order:
/// the first entries, as many as the level shows.
pub fn fortune_from_draw(level: usize, shuffled: Vec<usize>) -> (s: FortuneState)
    ensures
        s.level == level,
        s.index@ == shuffled@.take(
            if shuffled@.len() < fortune_entry_count(level) {
                shuffled@.len() as int
            } else {
                fortune_entry_count(level) as int
            },
        ),
{
    let keep: usize = if level == 1 || level == 5 {
        2
    } else {
        4
    };
    let mut index = shuffled;
    let ghost drawn = index@;
    index.truncate(keep);
    assert(index@ =~= drawn.take(if drawn.len() < keep { drawn.len() as int } else { keep as int }));
    FortuneState::new(level, index)
}

/// The fortune of the day: the one already drawn, or else a new one.
pub fn get_fortune_state(saved: Option<FortuneState>, fortune_len: usize) -> (s: FortuneState)
    ensures
        saved matches Some(f) ==> s == f,
        saved is None ==> is_fresh_fortune(s, fortune_len as nat),
{
    match saved {
        Some(state) => state,
        None => {
            let level_choices: Vec<usize> = vec![1, 2, 3, 4, 5];
            assert(fortune_weight_spec(level_choices@[0]) > 0);
            let level = match choose_weighted_level(&level_choices) {
                Some(l) => l,
                None => {
                    assert(false);
                    1
                },
            };
            assert(1 <= level <= 5) by {
                let i = choose|i: int| 0 <= i < level_choices@.len() && level_choices@[i] == level;
            }
            let mut index: Vec<usize> = Vec::new();
            let mut i: usize = 0;
            while i < fortune_len
                invariant
                    i <= fortune_len,
                    index@ == Seq::new(i as nat, |j: int| j as usize),
                decreases fortune_len - i,
            {
                index.push(i);
                assert(index@ =~= Seq::new((i + 1) as nat, |j: int| j as usize));
                i = i + 1;
            }
            let ghost ordered = index@;
            assert(ordered.no_duplicates());
            proof {
                ordered.lemma_multiset_has_no_duplicates();
            }
            shuffle_indices(&mut index);
            proof {
                broadcast use vstd::seq_lib::group_to_multiset_ensures;
                let shuffled = index@;
                assert forall|x: usize| shuffled.to_multiset().contains(x) implies shuffled.to_multiset().count(x) == 1 by {
                }
                shuffled.lemma_multiset_has_no_duplicates_conv();
                assert forall|j: int| 0 <= j < shuffled.len() implies shuffled[j] < fortune_len by {
                    vstd::seq_lib::to_multiset_contains(shuffled, shuffled[j]);
                    vstd::seq_lib::to_multiset_contains(ordered, shuffled[j]);
                    let k = choose|k: int| 0 <= k < ordered.len() && ordered[k] == shuffled[j];
                }
                assert(shuffled.len() == fortune_len) by {
                    vstd::seq_lib::to_multiset_len(shuffled);
                    vstd::seq_lib::to_multiset_len(ordered);
                }
            }
            fortune_from_draw(level, index)
        },
    }
}

/// The name shown for a fortune level.
pub open spec fn fortune_level_name(level: usize) -> Seq<char> {
    if level == 1 {
        "大吉"@
    } else if level == 2 {
        "中吉"@
    } else if level == 3 {
        "中平"@
    } else if level == 4 {
        "中凶"@
    } else {
        "大凶"@
    }
}

fn level_name(level: usize) -> (s: &'static str)
    ensures
        s@ == fortune_level_name(level),
{
    if level == 1 {
        "大吉"
    } else if level == 2 {
        "中吉"
    } else if level == 3 {
        "中平"
    } else if level == 4 {
        "中凶"
    } else {
        "大凶"
    }
}

/// Whether the entry at position `pos` of a fortune of `level` is shown as
/// something to do (rather than to avoid): all of them for level `1`, none
/// for level `5`, and the first two otherwise.
pub open spec fn fortune_is_good(level: usize, pos: int) -> bool {
    level == 1 || (level != 5 && pos <= 1)
}

/// One line of a fortune: `宜：text (result1)` for something to do,
/// `忌：text (result2)` for something to avoid.
pub open spec fn fortune_line(d: FortuneData, good: bool) -> Seq<char> {
    if good {
        "\n宜："@ + d.text@ + " ("@ + d.result1@ + ")"@
    } else {
        "\n忌："@ + d.text@ + " ("@ + d.result2@ + ")"@
    }
}

/// The lines of a fortune of `level` that shows the entries `idx`.
pub open spec fn fortune_lines(level: usize, idx: Seq<usize>, data: Seq<FortuneData>) -> Seq<char>
    decreases idx.len(),
{
    if idx.len() == 0 {
        Seq::empty()
    } else {
        fortune_lines(level, idx.drop_last(), data) + fortune_line(
            data[idx.last() as int],
            fortune_is_good(level, idx.len() - 1),
        )
    }
}

/// The text of a fortune: the level's name, then one line per entry.
pub open spec fn fortune_text(state: FortuneState, data: Seq<FortuneData>) -> Seq<char> {
    "你的今日运势为\n§"@ + fortune_level_name(state.level) + "§"@ + fortune_lines(
        state.level,
        state.index@,
        data,
    )
}

/// The fortune written out as a text segment.
pub fn discode_fortune_state(state: &FortuneState, fortune_data: &Vec<FortuneData>) -> (m: Message)
    requires
        forall|i: int| 0 <= i < state.index@.len() ==> state.index@[i] < fortune_data@.len(),
    ensures
        m@ == message_spec("text"@, seq![("text"@, fortune_text(*state, fortune_data@))]),
{
    let head = String::from_str("你的今日运势为\n§");
    let head = head.concat(level_name(state.level));
    let mut message = head.concat("§");
    let level = state.level;
    let mut i: usize = 0;
    let ghost idx = state.index@;
    assert(idx.take(0) =~= Seq::<usize>::empty());
    while i < state.index.len()
        invariant
            i <= idx.len(),
            idx == state.index@,
            level == state.level,
            forall|j: int| 0 <= j < idx.len() ==> idx[j] < fortune_data@.len(),
            message@ == "你的今日运势为\n§"@ + fortune_level_name(level) + "§"@ + fortune_lines(
                level,
                idx.take(i as int),
                fortune_data@,
            ),
        decreases idx.len() - i,
    {
        let d = &fortune_data[state.index[i]];
        assert(idx.take(i + 1).drop_last() =~= idx.take(i as int));
        assert(idx.take(i + 1).last() == idx[i as int]);
        if level == 1 || (level != 5 && i <= 1) {
            message.append("\n宜：");
            message.append(d.text.as_str());
            message.append(" (");
            message.append(d.result1.as_str());
            message.append(")");
        } else {
            message.append("\n忌：");
            message.append(d.text.as_str());
            message.append(" (");
            message.append(d.result2.as_str());
            message.append(")");
        }
        assert(message@ =~= "你的今日运势为\n§"@ + fortune_level_name(level) + "§"@ + fortune_lines(
            level,
            idx.take(i + 1),
            fortune_data@,
        ));
        i = i + 1;
    }
    assert(idx.take(idx.len() as int) =~= idx);
    convert_string_to_message(message)
}

/// The fortune reply: a mention of the user, then the fortune.
pub fn produce_fortune_message(user_id: i64, state: &FortuneState, fortune_data: &Vec<FortuneData>) -> (res: Vec<Message>)
    requires
        forall|i: int| 0 <= i < state.index@.len() ==> state.index@[i] < fortune_data@.len(),
    ensures
        res@.len() == 2,
        res@[0]@ == message_spec("at"@, seq![("qq"@, int_decimal(user_id as int))]),
        res@[1]@ == message_spec("text"@, seq![("text"@, fortune_text(*state, fortune_data@))]),
{
    let mut messages: Vec<Message> = Vec::new();
    messages.push(at_message(user_id));
    messages.push(discode_fortune_state(state, fortune_data));
    messages
}

/// A freshly drawn fortune can always be written out: every entry it shows
/// lies within the dictionary it was drawn for.
pub proof fn lemma_fresh_fortune_is_displayable(s: FortuneState, data: Seq<FortuneData>)
    requires
        is_fresh_fortune(s, data.len()),
    ensures
        forall|i: int| 0 <= i < s.index@.len() ==> s.index@[i] < data.len(),
{
}

/// Each entry of a fortune adds one line after those of the entries before
/// it. A fortune of level `1` shows every entry as something to do (`宜`,
/// with its first result); one of level `5` shows every entry as something to
/// avoid (`忌`, with its second result); one of level `2`, `3` or `4` shows
/// its first two entries as `宜` and every later one as `忌`.
pub proof fn lemma_fortune_line_of_entry(level: usize, idx: Seq<usize>, data: Seq<FortuneData>, p: int)
    requires
        0 <= p < idx.len(),
    ensures
        ({
            let d = data[idx[p] as int];
            let good = "\n宜："@ + d.text@ + " ("@ + d.result1@ + ")"@;
            let bad = "\n忌："@ + d.text@ + " ("@ + d.result2@ + ")"@;
            let before = fortune_lines(level, idx.take(p), data);
            let after = fortune_lines(level, idx.take(p + 1), data);
            &&& level == 1 ==> after == before + good
            &&& level == 5 ==> after == before + bad
            &&& (2 <= level <= 4 && p <= 1) ==> after == before + good
            &&& (2 <= level <= 4 && p >= 2) ==> after == before + bad
        }),
{
    let t = idx.take(p + 1);
    assert(t.drop_last() =~= idx.take(p));
    assert(t.last() == idx[p]);
    assert(t.len() - 1 == p);
}

/// The names of the fortune levels, from best to worst: `大吉`, `中吉`,
/// `中平`, `中凶`, and `大凶` for level `5` and any other.
pub proof fn lemma_fortune_level_names(level: usize)
    ensures
        fortune_level_name(1) == "大吉"@,
        fortune_level_name(2) == "中吉"@,
        fortune_level_name(3) == "中平"@,
        fortune_level_name(4) == "中凶"@,
        !(1 <= level <= 4) ==> fortune_level_name(level) == "大凶"@,
{
}

/// How many members a ranking shows at most.
pub const REPORT_SIZE: usize = 30;

/// A ranking being written: its text so far and how many members it shows.
pub struct ReportState {
    pub text: String,
    pub shown: usize,
}

/// The next step of writing a ranking, given the next member in order.
pub enum ReportStep {
    /// The ranking is full.
    Done,
    /// The member's key is not a number.
    Invalid,
    /// Look up the member with this id, then record them.
    Lookup(i64),
}

/// A member's line in a ranking: its place, the name, and the count.
pub open spec fn report_line(place: nat, name: Seq<char>, count: i64) -> Seq<char> {
    "\n"@ + nat_decimal(place) + "."@ + name + ": "@ + int_decimal(count as int)
}

/// The start of the ranking of the day.
pub fn daily_report_start() -> (s: ReportState)
    ensures
        s.text@ == "以下为今天的水群榜："@,
        s.shown == 0,
{
    ReportState { text: String::from_str("以下为今天的水群榜："), shown: 0 }
}

/// The start of the all-time ranking.
pub fn total_report_start() -> (s: ReportState)
    ensures
        s.text@ == "以下为水群总榜："@,
        s.shown == 0,
{
    ReportState { text: String::from_str("以下为水群总榜："), shown: 0 }
}

/// What to do with the next member of a ranking, whose key is `key`.
pub fn report_next(state: &ReportState, key: &String) -> (step: ReportStep)
    ensures
        state.shown >= REPORT_SIZE ==> step is Done,
        state.shown < REPORT_SIZE ==> match parse_i64_spec(key@) {
            Some(id) => step == ReportStep::Lookup(id),
            None => step is Invalid,
        },
{
    if state.shown >= REPORT_SIZE {
        return ReportStep::Done;
    }
    match parse_i64(key.as_str()) {
        Some(id) => ReportStep::Lookup(id),
        None => ReportStep::Invalid,
    }
}

/// One step of writing a ranking, on its text and the number of members it
/// shows, given the outcome of a name lookup and the member's count.
pub open spec fn record_step(r: (Seq<char>, nat), outcome: (Option<Seq<char>>, i64)) -> (Seq<char>, nat) {
    if r.1 >= REPORT_SIZE {
        r
    } else {
        match outcome.0 {
            None => r,
            Some(n) => (r.0 + report_line(r.1 + 1, n, outcome.1), r.1 + 1),
        }
    }
}

/// A ranking after the steps for a run of lookup outcomes, in order.
pub open spec fn record_all(r: (Seq<char>, nat), outcomes: Seq<(Option<Seq<char>>, i64)>) -> (Seq<char>, nat)
    decreases outcomes.len(),
{
    if outcomes.len() == 0 {
        r
    } else {
        record_step(record_all(r, outcomes.drop_last()), outcomes.last())
    }
}

/// The members whose lookup found a name, with their counts, in order.
pub open spec fn found_members(outcomes: Seq<(Option<Seq<char>>, i64)>) -> Seq<(Seq<char>, i64)>
    decreases outcomes.len(),
{
    if outcomes.len() == 0 {
        Seq::empty()
    } else {
        let f = found_members(outcomes.drop_last());
        match outcomes.last().0 {
            Some(n) => f.push((n, outcomes.last().1)),
            None => f,
        }
    }
}

/// The lines of a ranking of `es`, numbered from one.
pub open spec fn report_lines(es: Seq<(Seq<char>, i64)>) -> Seq<char>
    decreases es.len(),
{
    if es.len() == 0 {
        Seq::empty()
    } else {
        report_lines(es.drop_last()) + report_line(es.len(), es.last().0, es.last().1)
    }
}

/// The whole text of a ranking: starting from its title, the steps for a run
/// of lookups give the title followed by one numbered line for each member
/// whose name was found, the first [`REPORT_SIZE`] of them, and the ranking
/// shows that many members.
pub proof fn lemma_report_text(title: Seq<char>, outcomes: Seq<(Option<Seq<char>>, i64)>)
    ensures
        ({
            let f = found_members(outcomes);
            let k = if f.len() < REPORT_SIZE { f.len() } else { REPORT_SIZE as nat };
            record_all((title, 0), outcomes) == (title + report_lines(f.take(k as int)), k)
        }),
    decreases outcomes.len(),
{
    let f = found_members(outcomes);
    let k = if f.len() < REPORT_SIZE { f.len() } else { REPORT_SIZE as nat };
    if outcomes.len() == 0 {
        assert(f.take(0) =~= Seq::<(Seq<char>, i64)>::empty());
        assert(title + report_lines(f.take(0)) =~= title);
    } else {
        let prev = outcomes.drop_last();
        lemma_report_text(title, prev);
        let pf = found_members(prev);
        let pk = if pf.len() < REPORT_SIZE { pf.len() } else { REPORT_SIZE as nat };
        let last = outcomes.last();
        if pk >= REPORT_SIZE {
            assert(f.take(k as int) =~= pf.take(pk as int)) by {
                if last.0 is Some {
                    assert(f =~= pf.push((last.0->0, last.1)));
                }
            }
        } else {
            match last.0 {
                None => {},
                Some(n) => {
                    assert(f =~= pf.push((n, last.1)));
                    assert(pf.take(pk as int) =~= pf);
                    assert(f.take(k as int) =~= f);
                    assert(f.drop_last() =~= pf);
                    assert(title + report_lines(f) =~= title + report_lines(pf) + report_line(pk + 1, n, last.1));
                },
            }
        }
    }
}

/// The ranking after the lookup of a member who has `count` messages: their
/// line is added when the lookup found a name and the ranking is not full;
/// otherwise the ranking stays as it is.
pub fn report_record(state: ReportState, name: Option<String>, count: i64) -> (next: ReportState)
    ensures
        (next.text@, next.shown as nat) == record_step(
            (state.text@, state.shown as nat),
            (
                match name {
                    Some(n) => Some(n@),
                    None => None,
                },
                count,
            ),
        ),
        (name is None || state.shown >= REPORT_SIZE) ==> next == state,
        state.shown < REPORT_SIZE ==> (name matches Some(n) ==> {
            &&& next.text@ == state.text@ + report_line((state.shown + 1) as nat, n@, count)
            &&& next.shown == state.shown + 1
        }),
{
    if state.shown >= REPORT_SIZE {
        return state;
    }
    match name {
        None => state,
        Some(n) => {
            let place = state.shown + 1;
            let text = state.text.concat("\n");
            let p = u64_to_string(place as u64);
            let text = text.concat(p.as_str());
            let text = text.concat(".");
            let text = text.concat(n.as_str());
            let text = text.concat(": ");
            let c = i64_to_string(count);
            let text = text.concat(c.as_str());
            assert(text@ =~= state.text@ + report_line(place as nat, n@, count));
            ReportState { text, shown: place }
        },
    }
}

/// The members of the all-time ranking: the all-time counts with the counts
/// of the day added, from the largest count down.
pub fn total_report_entries(total: CountMap, daily: &CountMap) -> (res: Vec<(String, i64)>)
    requires
        merge_fits(total@, daily@),
    ensures
        keys_distinct(entries_view(res@)),
        entries_map(entries_view(res@)) == merged(total@, daily@),
        sorted_desc(entries_view(res@)),
{
    let mut total_data = total;
    total_data.merge_counts(daily);
    total_data.ranking()
}

/// A folder of image commands: its name, and the aliases its `data.json`
/// lists (none when it lists no `alias`).
pub struct PetEntry {
    pub folder_name: String,
    pub aliases: Option<Vec<String>>,
}

/// The folder that holds fonts rather than a command.
pub open spec fn is_font_folder(name: Seq<char>) -> bool {
    name == "fonts"@
}

/// Whether the folder `name` is passed over when listing commands.
pub fn pet_folder_skipped(name: &String) -> (res: bool)
    ensures
        res == is_font_folder(name@),
{
    let fonts = String::from_str("fonts");
    *name == fonts
}

/// The aliases of a command, each after a space.
pub open spec fn alias_text(names: Seq<String>) -> Seq<char>
    decreases names.len(),
{
    if names.len() == 0 {
        Seq::empty()
    } else {
        alias_text(names.drop_last()) + " "@ + names.last()@
    }
}

/// The line of one folder: nothing for the fonts folder and for folders
/// without aliases, else the folder's name, a space, and its aliases.
pub open spec fn pet_line(e: PetEntry) -> Seq<char> {
    if is_font_folder(e.folder_name@) {
        Seq::empty()
    } else {
        match e.aliases {
            Some(names) => "\n"@ + e.folder_name@ + " "@ + alias_text(names@),
            None => Seq::empty(),
        }
    }
}

pub open spec fn pet_lines(es: Seq<PetEntry>) -> Seq<char>
    decreases es.len(),
{
    if es.len() == 0 {
        Seq::empty()
    } else {
        pet_lines(es.drop_last()) + pet_line(es.last())
    }
}

/// The list of image commands, one folder per line.
pub fn get_pet_list(entries: &Vec<PetEntry>) -> (res: String)
    ensures
        res@ == "以下为可用的petpet指令"@ + pet_lines(entries@),
{
    let mut pet_list = String::from_str("以下为可用的petpet指令");
    let mut i: usize = 0;
    assert(entries@.take(0) =~= Seq::<PetEntry>::empty());
    while i < entries.len()
        invariant
            i <= entries@.len(),
            pet_list@ == "以下为可用的petpet指令"@ + pet_lines(entries@.take(i as int)),
        decreases entries.len() - i,
    {
        let e = &entries[i];
        assert(entries@.take(i + 1).drop_last() =~= entries@.take(i as int));
        assert(entries@.take(i + 1).last() == *e);
        if !pet_folder_skipped(&e.folder_name) {
            match &e.aliases {
                Some(names) => {
                    pet_list.append("\n");
                    pet_list.append(e.folder_name.as_str());
                    pet_list.append(" ");
                    let ghost head = pet_list@;
                    let mut j: usize = 0;
                    assert(names@.take(0) =~= Seq::<String>::empty());
                    while j < names.len()
                        invariant
                            j <= names@.len(),
                            pet_list@ == head + alias_text(names@.take(j as int)),
                        decreases names.len() - j,
                    {
                        assert(names@.take(j + 1).drop_last() =~= names@.take(j as int));
                        pet_list.append(" ");
                        pet_list.append(names[j].as_str());
                        assert(pet_list@ =~= head + alias_text(names@.take(j + 1)));
                        j = j + 1;
                    }
                    assert(names@.take(names@.len() as int) =~= names@);
                },
                None => {},
            }
        }
        assert(pet_list@ =~= "以下为可用的petpet指令"@ + pet_lines(entries@.take(i + 1)));
        i = i + 1;
    }
    assert(entries@.take(entries@.len() as int) =~= entries@);
    pet_list
}

/// The aliases of a command folder's `data.json` object: none when it has no
/// `alias` field, the list when that field is a list of strings, and nothing
/// at all (`None`) when the field is anything else.
pub open spec fn pet_aliases_of(m: Map<Seq<char>, JsonFieldView>) -> Option<Option<Seq<Seq<char>>>> {
    if !m.contains_key("alias"@) {
        Some(None)
    } else {
        match m["alias"@] {
            JsonFieldView::TextList(names) => Some(Some(names)),
            _ => None,
        }
    }
}

/// Why a command folder's `data.json` could not be read.
#[derive(Debug, PartialEq, Eq, Structural)]
pub enum PetDataError {
    /// The file is not a JSON object.
    NotJsonObject,
    /// The `alias` field is not a list of strings.
    BadAlias,
}

/// The entry of the command folder `folder_name` whose `data.json` holds
/// `bytes`.
pub fn read_pet_entry(folder_name: String, bytes: &[u8]) -> (r: Result<PetEntry, PetDataError>)
    ensures
        match json_object_fields(bytes@) {
            None => r == Err::<PetEntry, PetDataError>(PetDataError::NotJsonObject),
            Some(m) => match pet_aliases_of(m) {
                None => r == Err::<PetEntry, PetDataError>(PetDataError::BadAlias),
                Some(aliases) => r matches Ok(e) && e.folder_name == folder_name && match aliases {
                    None => e.aliases is None,
                    Some(names) => e.aliases matches Some(v) && v@.map_values(|s: String| s@) == names,
                },
            },
        },
{
    let o = match read_json_object(bytes) {
        Some(o) => o,
        None => return Err(PetDataError::NotJsonObject),
    };
    match o.get("alias") {
        None => Ok(PetEntry { folder_name, aliases: None }),
        Some(JsonField::TextList(names)) => {
            let v = names.clone();
            assert(v@ == names@);
            Ok(PetEntry { folder_name, aliases: Some(v) })
        },
        Some(_) => Err(PetDataError::BadAlias),
    }
}

/// How long a downloaded avatar is kept, in seconds.
pub const AVATAR_LIFETIME_SECS: u64 = 86400;

/// Whether a user's avatar is fetched again: unless the picture is there and
/// its stamp file was written less than [`AVATAR_LIFETIME_SECS`] before `now`.
pub fn avatar_needs_download(avatar_exists: bool, stamp_time: Option<u64>, now: u64) -> (res: bool)
    requires
        avatar_exists ==> (stamp_time matches Some(t) ==> t <= now),
    ensures
        res == !(avatar_exists && stamp_time is Some && now - stamp_time->0 < AVATAR_LIFETIME_SECS),
{
    if avatar_exists {
        match stamp_time {
            Some(t) => {
                if now - t < AVATAR_LIFETIME_SECS {
                    return false;
                }
            },
            None => {},
        }
    }
    true
}

/// Where a user's avatar is fetched from.
pub fn avatar_url(user_id: i64) -> (u: String)
    ensures
        u@ == "http://q1.qlogo.cn/g?b=qq&nk="@ + int_decimal(user_id as int) + "&s=640"@,
{
    id_file_path("http://q1.qlogo.cn/g?b=qq&nk=", user_id, "&s=640")
}

/// Where a user's avatar is kept.
pub fn avatar_path(user_id: i64) -> (p: String)
    ensures
        p@ == "data/avatar/"@ + int_decimal(user_id as int) + ".jpg"@,
{
    id_file_path("data/avatar/", user_id, ".jpg")
}

/// The stamp file whose time tells when a user's avatar was fetched.
pub fn avatar_stamp_path(user_id: i64) -> (p: String)
    ensures
        p@ == "data/avatar/"@ + int_decimal(user_id as int) + ".due"@,
{
    id_file_path("data/avatar/", user_id, ".due")
}

/// The partner of the day, once drawn, stays drawn: whichever way `get_wife`
/// went, the table afterwards pairs the user with the partner it returned, so
/// every later call returns that partner again and leaves the table as it is.
pub proof fn lemma_wife_is_kept(before: Map<Seq<char>, i64>, after: Map<Seq<char>, i64>, user_id: i64, wife: i64)
    requires
        before.contains_key(int_decimal(user_id as int)) ==> wife == before[int_decimal(user_id as int)]
            && after == before,
        !before.contains_key(int_decimal(user_id as int)) ==> after == before.insert(
            int_decimal(user_id as int),
            wife,
        ),
    ensures
        after.contains_key(int_decimal(user_id as int)),
        after[int_decimal(user_id as int)] == wife,
{
}

} // verus!
