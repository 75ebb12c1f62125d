//! The commands that the queue sends to its key-value store, and a model of
//! what those commands do to a store, after their documented semantics
//! (a key holds either a text or a list of texts).

use vstd::prelude::*;

verus! {

/// A command to the key-value store.
#[derive(Debug, Clone, PartialEq, Eq)]
pub enum StoreCommand {
    /// Store `value` as the text under `key`, replacing what was there.
    SetText { key: String, value: String },
    /// Put `value` at the front of the list under `key`.
    LPush { key: String, value: String },
    /// The items `start..=stop` of the list under `key`; negative positions
    /// count from the end.
    LRange { key: String, start: isize, stop: isize },
    /// Remove every occurrence of `value` from the list under `key`.
    LRemAll { key: String, value: String },
    /// The text under `key`.
    Get { key: String },
    /// Remove whatever is under `key`.
    Del { key: String },
}

/// A store command over plain values.
pub enum CommandModel {
    SetText(Seq<char>, Seq<char>),
    LPush(Seq<char>, Seq<char>),
    LRange(Seq<char>, int, int),
    LRemAll(Seq<char>, Seq<char>),
    Get(Seq<char>),
    Del(Seq<char>),
}

impl View for StoreCommand {
    type V = CommandModel;

    open spec fn view(&self) -> CommandModel {
        match self {
            StoreCommand::SetText { key, value } => CommandModel::SetText(key@, value@),
            StoreCommand::LPush { key, value } => CommandModel::LPush(key@, value@),
            StoreCommand::LRange { key, start, stop } => CommandModel::LRange(
                key@,
                *start as int,
                *stop as int,
            ),
            StoreCommand::LRemAll { key, value } => CommandModel::LRemAll(key@, value@),
            StoreCommand::Get { key } => CommandModel::Get(key@),
            StoreCommand::Del { key } => CommandModel::Del(key@),
        }
    }
}

/// What a key holds.
pub enum StoreValue {
    Text(Seq<char>),
    List(Seq<Seq<char>>),
}

/// What a command answers.
pub enum Reply {
    Done,
    Count(nat),
    Value(Option<Seq<char>>),
    Items(Seq<Seq<char>>),
    WrongType,
}

/// The items `start..=stop` of `list`. A negative position counts from the
/// end; the range is then clipped to the list.
pub open spec fn list_range(list: Seq<Seq<char>>, start: int, stop: int) -> Seq<Seq<char>> {
    let len = list.len() as int;
    let from = if start < 0 {
        len + start
    } else {
        start
    };
    let to = if stop < 0 {
        len + stop
    } else {
        stop
    };
    let from = if from < 0 {
        0
    } else {
        from
    };
    if from > to || from >= len {
        Seq::empty()
    } else if to >= len {
        list.subrange(from, len)
    } else {
        list.subrange(from, to + 1)
    }
}

/// `items` without any occurrence of `value`, in their order.
pub open spec fn without(items: Seq<Seq<char>>, value: Seq<char>) -> Seq<Seq<char>>
    decreases items.len(),
{
    if items.len() == 0 {
        Seq::empty()
    } else if items.last() == value {
        without(items.drop_last(), value)
    } else {
        without(items.drop_last(), value).push(items.last())
    }
}

/// The store after `command`, and the reply.
pub open spec fn apply(store: Map<Seq<char>, StoreValue>, command: CommandModel) -> (
    Map<Seq<char>, StoreValue>,
    Reply,
) {
    match command {
        CommandModel::SetText(key, value) => (store.insert(key, StoreValue::Text(value)), Reply::Done),
        CommandModel::LPush(key, value) => {
            if !store.contains_key(key) {
                (store.insert(key, StoreValue::List(seq![value])), Reply::Count(1))
            } else {
                match store[key] {
                    StoreValue::List(items) => (
                        store.insert(key, StoreValue::List(seq![value] + items)),
                        Reply::Count(items.len() + 1),
                    ),
                    StoreValue::Text(_) => (store, Reply::WrongType),
                }
            }
        },
        CommandModel::LRange(key, start, stop) => {
            if !store.contains_key(key) {
                (store, Reply::Items(Seq::empty()))
            } else {
                match store[key] {
                    StoreValue::List(items) => (store, Reply::Items(list_range(items, start, stop))),
                    StoreValue::Text(_) => (store, Reply::WrongType),
                }
            }
        },
        CommandModel::LRemAll(key, value) => {
            if !store.contains_key(key) {
                (store, Reply::Count(0))
            } else {
                match store[key] {
                    StoreValue::List(items) => {
                        let rest = without(items, value);
                        (
                            if rest.len() == 0 {
                                store.remove(key)
                            } else {
                                store.insert(key, StoreValue::List(rest))
                            },
                            Reply::Count((items.len() - rest.len()) as nat),
                        )
                    },
                    StoreValue::Text(_) => (store, Reply::WrongType),
                }
            }
        },
        CommandModel::Get(key) => {
            if !store.contains_key(key) {
                (store, Reply::Value(None))
            } else {
                match store[key] {
                    StoreValue::Text(text) => (store, Reply::Value(Some(text))),
                    StoreValue::List(_) => (store, Reply::WrongType),
                }
            }
        },
        CommandModel::Del(key) => (
            store.remove(key),
            Reply::Count(
                if store.contains_key(key) {
                    1
                } else {
                    0
                },
            ),
        ),
    }
}

/// The store after the commands, one after another.
pub open spec fn apply_all(store: Map<Seq<char>, StoreValue>, commands: Seq<CommandModel>) -> Map<
    Seq<char>,
    StoreValue,
>
    decreases commands.len(),
{
    if commands.len() == 0 {
        store
    } else {
        apply(apply_all(store, commands.drop_last()), commands.last()).0
    }
}

} // verus!
