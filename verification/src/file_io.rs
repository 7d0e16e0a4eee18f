//! Where the bot's data lives: file names built from group and user ids.

use vstd::prelude::*;

use crate::text::{chars_of, has_prefix, i64_to_string, int_decimal, starts_with_chars};

verus! {

/// The input without the given prefix, or the input itself when it does not
/// start with that prefix.
pub fn remove_prefix<'a>(input: &'a str, prefix: &str) -> (res: &'a str)
    ensures
        res@ == if has_prefix(input@, prefix@) {
            input@.skip(prefix@.len() as int)
        } else {
            input@
        },
{
    let chars = chars_of(input);
    let pchars = chars_of(prefix);
    if starts_with_chars(&chars, &pchars) {
        let r = input.substring_char(pchars.len(), chars.len());
        assert(r@ =~= input@.skip(prefix@.len() as int));
        r
    } else {
        input
    }
}

/// The file `dir` + the decimal id + `ext`, as in `./data/daily/42.json`.
pub fn id_file_path(dir: &str, id: i64, ext: &str) -> (p: String)
    ensures
        p@ == dir@ + int_decimal(id as int) + ext@,
{
    let p = String::from_str(dir);
    let n = i64_to_string(id);
    let p = p.concat(n.as_str());
    p.concat(ext)
}

/// The file of a group's message counts of the day.
pub fn daily_file_path(group_id: i64) -> (p: String)
    ensures
        p@ == "./data/daily/"@ + int_decimal(group_id as int) + ".json"@,
{
    id_file_path("./data/daily/", group_id, ".json")
}

/// The file of a group's all-time message counts.
pub fn total_file_path(group_id: i64) -> (p: String)
    ensures
        p@ == "./data/total/"@ + int_decimal(group_id as int) + ".json"@,
{
    id_file_path("./data/total/", group_id, ".json")
}

/// The file of a group's partners of the day.
pub fn wife_file_path(group_id: i64) -> (p: String)
    ensures
        p@ == "./data/wife/"@ + int_decimal(group_id as int) + ".json"@,
{
    id_file_path("./data/wife/", group_id, ".json")
}

/// The file of a user's fortune of the day.
pub fn fortune_file_path(user_id: i64) -> (p: String)
    ensures
        p@ == "./data/fortune/"@ + int_decimal(user_id as int) + ".json"@,
{
    id_file_path("./data/fortune/", user_id, ".json")
}

} // verus!
