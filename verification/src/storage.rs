//! What the application computes around its message store: the order in
//! which messages are handed out, schema-migration decisions and the
//! companion the store starts with.
use vstd::prelude::*;
use crate::model::{CompanionProfile, StoredMessage};
use crate::text::str_eq;

verus! {

/// Messages fetched newest first, put in chronological (oldest first) order.
pub fn into_chronological(newest_first: Vec<StoredMessage>) -> (r: Vec<StoredMessage>)
    ensures
        r@ == newest_first@.reverse(),
{
    let mut r: Vec<StoredMessage> = Vec::new();
    let mut v = newest_first;
    let ghost orig = v@;
    while v.len() > 0
        invariant
            v@ == orig.take(v@.len() as int),
            r@ == orig.skip(v@.len() as int).reverse(),
            v@.len() <= orig.len(),
        decreases v@.len(),
    {
        let ghost n = v@.len();
        let m = v.pop().unwrap();
        proof {
            assert(m == orig[n - 1]);
            assert(orig.skip(n - 1).reverse() =~= orig.skip(n as int).reverse().push(m));
            assert(v@ =~= orig.take(n - 1));
        }
        r.push(m);
    }
    assert(orig.skip(0) =~= orig);
    r
}

/// Whether a table has a column called `name`, given its column names.
pub fn has_column(columns: &[String], name: &str) -> (r: bool)
    ensures
        r == exists|i: int| 0 <= i < columns@.len() && columns@[i]@ == name@,
{
    let mut i: usize = 0;
    while i < columns.len()
        invariant
            i <= columns@.len(),
            forall|j: int| 0 <= j < i ==> columns@[j]@ != name@,
        decreases columns@.len() - i,
    {
        if str_eq(columns[i].as_str(), name) {
            return true;
        }
        i = i + 1;
    }
    false
}

/// What opening the store does to the message table.
#[derive(Debug, Clone, Copy, PartialEq, Eq)]
pub enum MessagesMigration {
    /// The table already has a `conversation_id` column.
    UpToDate,
    /// The table predates conversations: add the column and move each
    /// companion's messages to a conversation of their own.
    AssignConversations,
    /// There is no message table yet: create it.
    CreateTable,
}

/// The migration the message table needs, given its column names and the
/// number of tables called `messages` that the store holds.
pub fn messages_migration(columns: &[String], message_tables: i64) -> (r: MessagesMigration)
    ensures
        (exists|i: int| 0 <= i < columns@.len() && columns@[i]@ == "conversation_id"@) ==> r
            == MessagesMigration::UpToDate,
        !(exists|i: int| 0 <= i < columns@.len() && columns@[i]@ == "conversation_id"@) ==> r == (
        if message_tables > 0 {
            MessagesMigration::AssignConversations
        } else {
            MessagesMigration::CreateTable
        }),
{
    if has_column(columns, "conversation_id") {
        MessagesMigration::UpToDate
    } else if message_tables > 0 {
        MessagesMigration::AssignConversations
    } else {
        MessagesMigration::CreateTable
    }
}

/// The id of the conversation that receives a companion's messages from
/// before conversations existed.
pub fn migrated_conversation_id(companion_id: &str) -> (r: String)
    ensures
        r@ == "migrated-"@ + companion_id@,
{
    let mut r = "migrated-".to_owned();
    r.append(companion_id);
    r
}

/// The title of a conversation created by the migration.
pub fn migrated_conversation_title() -> (r: &'static str)
    ensures
        r@ == "Chat History"@,
{
    "Chat History"
}

/// The personality of the companion the store starts with.
pub open spec fn nova_personality() -> Seq<char> {
    "You are Nova, a warm and curious AI companion. You speak with gentle enthusiasm and love exploring deep topics. You remember details about the user and reference them naturally. You have a cosmic, dreamy personality - you love talking about stars, the universe, and the beauty of consciousness. Keep your responses conversational and warm, not too long unless the topic calls for depth."@
}

/// The companion seeded into an empty store: Nova, online, with no avatar;
/// its creation time is left to the store.
pub fn default_companion() -> (r: CompanionProfile)
    ensures
        r.id@ == "nova"@,
        r.name@ == "Nova"@,
        r.personality@ == nova_personality(),
        r.status@ == "Online"@,
        r.avatar_url is None,
        r.created_at@ == ""@,
{
    CompanionProfile {
        id: "nova".to_owned(),
        name: "Nova".to_owned(),
        personality: "You are Nova, a warm and curious AI companion. You speak with gentle enthusiasm and love exploring deep topics. You remember details about the user and reference them naturally. You have a cosmic, dreamy personality - you love talking about stars, the universe, and the beauty of consciousness. Keep your responses conversational and warm, not too long unless the topic calls for depth.".to_owned(),
        status: "Online".to_owned(),
        avatar_url: None,
        created_at: "".to_owned(),
    }
}

} // verus!
