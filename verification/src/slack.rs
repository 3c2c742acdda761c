//! The records of a chat archive: messages, their attachments and blocks, and the channel
//! a message was posted in.

use crate::text::{occurs_in, str_contains};
use crate::timestamp::{parse_timestamp, timestamp_seconds};
use vstd::prelude::*;

verus! {

/// The profile of the user who posted a message.
#[derive(Debug)]
pub struct UserProfile {
    pub avatar_hash: String,
    /// URL of the avatar image.
    pub image_72: String,
    pub first_name: String,
    pub real_name: String,
    pub display_name: String,
    pub team: String,
    pub name: String,
    pub is_restricted: bool,
    pub is_ultra_restricted: bool,
}

/// An attachment of a message.
#[derive(Debug)]
pub struct MessageAttachment {
    pub id: Option<u64>,
    pub text: Option<String>,
}

/// A block of rich content. A block may carry a text of its own and may hold further
/// blocks; the text of all of them counts as the text of the block.
#[derive(Debug)]
pub struct MessageBlock {
    pub json_type: String,
    pub block_id: Option<String>,
    pub text: Option<String>,
    pub elements: Option<Vec<MessageBlock>>,
}

/// A chat message.
#[derive(Debug)]
pub struct Message {
    pub user: Option<String>,
    pub json_type: String,
    /// Seconds since the Unix epoch in decimal, optionally followed by a dot and a
    /// fraction of a second.
    pub ts: String,
    pub client_msg_id: Option<String>,
    pub text: String,
    pub team: Option<String>,
    pub user_team: Option<String>,
    pub source_team: Option<String>,
    pub user_profile: Option<UserProfile>,
    pub thread_ts: Option<String>,
    pub parent_user_id: Option<String>,
    pub attachments: Option<Vec<MessageAttachment>>,
    pub blocks: Option<Vec<MessageBlock>>,
}

/// A message together with the channel it was read from.
///
/// The archive does not record the channel inside a message; it follows from where the
/// message was stored.
#[derive(Debug)]
pub struct MessageInChannel {
    pub channel: String,
    pub message: Message,
}

impl MessageAttachment {
    /// Whether the attachment has a text in which `pattern` occurs.
    pub open spec fn spec_contains(&self, pattern: Seq<char>) -> bool {
        self.text matches Some(text) && occurs_in(pattern, text@)
    }

    /// Returns true if the attachment has a text in which `pattern` occurs.
    pub fn contains(&self, pattern: &str) -> (found: bool)
        ensures
            found == self.spec_contains(pattern@),
    {
        match &self.text {
            Some(text) => str_contains(text.as_str(), pattern),
            None => false,
        }
    }
}

impl MessageBlock {
    /// Whether `pattern` occurs in the text of this block or in one of the blocks inside
    /// it, at any depth.
    pub open spec fn spec_contains(&self, pattern: Seq<char>) -> bool
        decreases self,
    {
        ||| (self.text matches Some(text) && occurs_in(pattern, text@))
        ||| (self.elements matches Some(elements) && exists|i: int|
            0 <= i < elements.len() && (#[trigger] elements[i]).spec_contains(pattern))
    }

    /// Returns true if `pattern` occurs in the block's text or in one of the blocks
    /// inside it, at any depth.
    pub fn contains(&self, pattern: &str) -> (found: bool)
        ensures
            found == self.spec_contains(pattern@),
        decreases self,
    {
        if let Some(text) = &self.text {
            if str_contains(text.as_str(), pattern) {
                return true;
            }
        }
        if let Some(elements) = &self.elements {
            if any_block_contains(elements, pattern) {
                return true;
            }
        }
        false
    }
}

/// Whether `pattern` occurs in one of `blocks`.
pub open spec fn some_block_contains(blocks: Seq<MessageBlock>, pattern: Seq<char>) -> bool {
    exists|i: int| 0 <= i < blocks.len() && (#[trigger] blocks[i]).spec_contains(pattern)
}

/// Whether `pattern` occurs in one of `attachments`.
pub open spec fn some_attachment_contains(
    attachments: Seq<MessageAttachment>,
    pattern: Seq<char>,
) -> bool {
    exists|i: int|
        0 <= i < attachments.len() && (#[trigger] attachments[i]).spec_contains(pattern)
}

fn any_block_contains(blocks: &Vec<MessageBlock>, pattern: &str) -> (found: bool)
    ensures
        found == some_block_contains(blocks@, pattern@),
    decreases blocks,
{
    let mut index: usize = 0;
    while index < blocks.len()
        invariant
            index <= blocks.len(),
            forall|i: int| 0 <= i < index ==> !(#[trigger] blocks[i]).spec_contains(pattern@),
        decreases blocks.len() - index,
    {
        if blocks[index].contains(pattern) {
            return true;
        }
        index += 1;
    }
    false
}

fn any_attachment_contains(attachments: &Vec<MessageAttachment>, pattern: &str) -> (found: bool)
    ensures
        found == some_attachment_contains(attachments@, pattern@),
{
    let mut index: usize = 0;
    while index < attachments.len()
        invariant
            index <= attachments.len(),
            forall|i: int|
                0 <= i < index ==> !(#[trigger] attachments[i]).spec_contains(pattern@),
        decreases attachments.len() - index,
    {
        if attachments[index].contains(pattern) {
            return true;
        }
        index += 1;
    }
    false
}

impl Message {
    /// A message of `user` with the timestamp `timestamp` and the text `text`, without
    /// attachments, blocks or any of the optional details.
    pub fn new(user: &str, timestamp: &str, text: &str) -> (message: Message)
        ensures
            message.user matches Some(name) && name@ == user@,
            message.json_type@ == "message"@,
            message.ts@ == timestamp@,
            message.text@ == text@,
            message.client_msg_id is None,
            message.team is None,
            message.user_team is None,
            message.source_team is None,
            message.user_profile is None,
            message.thread_ts is None,
            message.parent_user_id is None,
            message.attachments is None,
            message.blocks is None,
    {
        Message {
            user: Some(user.to_owned()),
            json_type: "message".to_owned(),
            ts: timestamp.to_owned(),
            client_msg_id: None,
            text: text.to_owned(),
            team: None,
            user_team: None,
            source_team: None,
            user_profile: None,
            thread_ts: None,
            parent_user_id: None,
            attachments: None,
            blocks: None,
        }
    }

    /// The time of the message in whole seconds since the Unix epoch, where its
    /// timestamp gives one.
    pub open spec fn spec_time(&self) -> Option<int> {
        timestamp_seconds(self.ts@)
    }

    /// Whether the timestamp of the message gives a time.
    pub open spec fn has_time(&self) -> bool {
        self.spec_time() is Some
    }

    /// Returns the time of the message in whole seconds since the Unix epoch, or `None`
    /// where its timestamp is malformed or outside the supported range of dates.
    pub fn checked_time(&self) -> (seconds: Option<i64>)
        ensures
            seconds matches Some(s) ==> self.spec_time() == Some(s as int),
            seconds is None ==> !self.has_time(),
    {
        parse_timestamp(self.ts.as_str())
    }

    /// Returns the time of the message in whole seconds since the Unix epoch. The
    /// fraction of a second in the timestamp is left out, as only longer spans of time
    /// are of interest.
    pub fn time(&self) -> (seconds: i64)
        requires
            self.has_time(),
        ensures
            self.spec_time() == Some(seconds as int),
    {
        parse_timestamp(self.ts.as_str()).unwrap()
    }

    /// Whether `pattern` occurs in the effective text of the message: its own text, the
    /// texts of its attachments and the texts of its blocks.
    pub open spec fn spec_contains(&self, pattern: Seq<char>) -> bool {
        ||| occurs_in(pattern, self.text@)
        ||| (self.attachments matches Some(attachments) && some_attachment_contains(
            attachments@,
            pattern,
        ))
        ||| (self.blocks matches Some(blocks) && some_block_contains(blocks@, pattern))
    }

    /// Returns true if `pattern` occurs in the message's text, in one of its attachments
    /// or in one of its blocks.
    pub fn contains(&self, pattern: &str) -> (found: bool)
        ensures
            found == self.spec_contains(pattern@),
    {
        if str_contains(self.text.as_str(), pattern) {
            return true;
        }
        if let Some(attachments) = &self.attachments {
            if any_attachment_contains(attachments, pattern) {
                return true;
            }
        }
        if let Some(blocks) = &self.blocks {
            if any_block_contains(blocks, pattern) {
                return true;
            }
        }
        false
    }
}

impl MessageInChannel {
    /// Puts `message` into `channel`.
    pub fn new(channel: &str, message: Message) -> (placed: MessageInChannel)
        ensures
            placed.channel@ == channel@,
            placed.message == message,
    {
        MessageInChannel { channel: channel.to_owned(), message }
    }
}

/// Whether the records that have a time stand in ascending order of it.
pub open spec fn sorted_by_time(records: Seq<MessageInChannel>) -> bool {
    forall|i: int, j: int|
        0 <= i <= j < records.len() && (#[trigger] records[i]).message.has_time()
            && (#[trigger] records[j]).message.has_time()
            ==> records[i].message.spec_time()->0 <= records[j].message.spec_time()->0
}

/// Whether every one of `records` has a time.
pub open spec fn all_have_time(records: Seq<MessageInChannel>) -> bool {
    forall|i: int| 0 <= i < records.len() ==> (#[trigger] records[i]).message.has_time()
}

/// The records among `records` whose time is `seconds`, in their order.
pub open spec fn records_at(records: Seq<MessageInChannel>, seconds: int) -> Seq<
    MessageInChannel,
> {
    records.filter(|record: MessageInChannel| record.message.spec_time() == Some(seconds))
}

/// Whether `records` are `messages` in their order, each placed in `channel`.
pub open spec fn placed_in(
    channel: Seq<char>,
    messages: Seq<Message>,
    records: Seq<MessageInChannel>,
) -> bool {
    &&& records.len() == messages.len()
    &&& forall|i: int|
        0 <= i < records.len() ==> (#[trigger] records[i]).channel@ == channel
            && records[i].message == messages[i]
}

/// The shape of the names of the files that hold messages: a directory, then a date
/// as year, month and day, then the ending for JSON. An archive holds other JSON
/// files too.
pub const JSON_FILE_NAME: &'static str = r".*\/\d{4}-\d{2}-\d{2}.json$";

/// Whether the regular expression `pattern` has a match somewhere in `haystack`, or
/// `None` where `pattern` is not a regular expression that can be compiled.
pub uninterp spec fn regex_match(pattern: Seq<char>, haystack: Seq<char>) -> Option<bool>;

/// Tells whether the regular expression `pattern` has a match in `haystack`.
///
/// Calls `regex::Regex::new` on `pattern` and `Regex::is_match` on what it yields.
/// Both depend on their arguments alone; what they compute is left to the regex
/// crate, and so is whether the pattern compiles.
#[verifier::external_body]
pub(crate) fn regex_is_match(pattern: &str, haystack: &str) -> (found: Option<bool>)
    ensures
        found == regex_match(pattern@, haystack@),
{
    match regex::Regex::new(pattern) {
        Ok(compiled) => Some(compiled.is_match(haystack)),
        Err(_) => None,
    }
}

/// Decides from the kind of an entry of the archive and from the outcome of matching
/// its name whether the entry holds messages: it is a file, and its name has the shape.
pub fn selects_entry(is_dir: bool, name_matches: Option<bool>) -> (selected: bool)
    ensures
        selected == (!is_dir && name_matches == Some(true)),
{
    match name_matches {
        Some(matches) => !is_dir && matches,
        None => false,
    }
}

/// Tells whether the entry `name` of an archive holds messages: it is no directory
/// and its name has the shape of a message file.
pub fn is_message_file(name: &str, is_dir: bool) -> (selected: bool)
    ensures
        selected == (!is_dir && regex_match(JSON_FILE_NAME@, name@) == Some(true)),
{
    selects_entry(is_dir, regex_is_match(JSON_FILE_NAME, name))
}

/// Places every one of `messages` in `channel`, keeping their order.
pub fn place_in_channel(channel: &str, messages: Vec<Message>) -> (records: Vec<MessageInChannel>)
    ensures
        placed_in(channel@, messages@, records@),
{
    let ghost source = messages@;
    let mut records: Vec<MessageInChannel> = Vec::new();
    for message in iter: messages
        invariant
            iter.seq() == source,
            records.len() == iter.index(),
            forall|i: int|
                0 <= i < records.len() ==> (#[trigger] records[i]).channel@ == channel@
                    && records[i].message == source[i],
    {
        records.push(MessageInChannel::new(channel, message));
    }
    records
}

/// Tells whether every one of `records` has a time.
pub fn check_times(records: &Vec<MessageInChannel>) -> (complete: bool)
    ensures
        complete == all_have_time(records@),
{
    let mut index: usize = 0;
    while index < records.len()
        invariant
            index <= records.len(),
            forall|i: int| 0 <= i < index ==> (#[trigger] records[i]).message.has_time(),
        decreases records.len() - index,
    {
        if records[index].message.checked_time().is_none() {
            return false;
        }
        index += 1;
    }
    true
}

/// Sorts `records` by their time, ascending, and leaves records of the same time in
/// the order they had.
///
/// Calls `sort_by_key` of the standard library with the time of a record as the key.
/// It is documented to sort by the key and to be stable: so the records of any one
/// time are afterwards those of before, in their order, and no record is lost or
/// added.
#[verifier::external_body]
pub(crate) fn sort_by_key_time(records: &mut Vec<MessageInChannel>)
    requires
        all_have_time(old(records)@),
    ensures
        final(records)@.len() == old(records)@.len(),
        all_have_time(final(records)@),
        sorted_by_time(final(records)@),
        forall|seconds: int|
            #[trigger] records_at(final(records)@, seconds) == records_at(old(records)@, seconds),
{
    records.sort_by_key(|record| record.message.time());
}

/// Puts the records of an archive in the order of their time. Records of the same
/// time keep the order in which they were read.
pub fn sort_by_time(records: Vec<MessageInChannel>) -> (sorted: Vec<MessageInChannel>)
    requires
        all_have_time(records@),
    ensures
        sorted@.len() == records@.len(),
        all_have_time(sorted@),
        sorted_by_time(sorted@),
        forall|seconds: int|
            #[trigger] records_at(sorted@, seconds) == records_at(records@, seconds),
{
    let mut sorted = records;
    sort_by_key_time(&mut sorted);
    sorted
}

} // verus!
