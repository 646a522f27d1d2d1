use crate::text::{decimal, parse_u32, parsed_u32, same_text, split_words, word_spans, words};
use crate::vault::{
    ascending, cell_text, occupied_text, put_done, take_done, Cell, Item, Vault, VaultError,
};
use rand::Rng;
use vstd::prelude::*;

verus! {

/// The capacity given to a cell that a `PUT` creates.
pub const MAX_CELL_SIZE: u32 = 100;

/// The shortest pause before a `PING` is answered, in seconds.
pub const PING_MIN_SECS: u64 = 1;

/// The longest pause before a `PING` is answered, in seconds.
pub const PING_MAX_SECS: u64 = 5;

/// What the connection does after one command line.
pub enum Action {
    /// Nothing: the line held no command.
    Nothing,
    /// Write this text.
    Reply(String),
    /// Wait `secs` seconds, then write `reply`.
    Delayed { secs: u64, reply: String },
    /// Write this text, then close the connection.
    Close(String),
}

/// Whether `a` writes exactly `text`.
pub open spec fn replies(a: Action, text: Seq<char>) -> bool {
    a is Reply && a->Reply_0@ == text
}

/// The answer to a `PUT` whose vault operation returned `r`.
pub open spec fn put_reply(r: Result<(), VaultError>) -> Seq<char> {
    match r {
        Ok(()) => "OK: item stored\n"@,
        Err(VaultError::VaultFull) => "ERROR: vault is full\n"@,
        Err(VaultError::CellFull) => "ERROR: cell is full\n"@,
        Err(_) => "ERROR: unknown error\n"@,
    }
}

/// The answer to a `GET` of cell `id`.
pub open spec fn get_reply(cells: Map<u32, Cell>, id: u32) -> Seq<char> {
    if !cells.contains_key(id) {
        "ERROR: cell not found\n"@
    } else if cells[id]@.items.len() == 0 {
        "Cell is empty\n"@
    } else {
        cell_text(cells[id]@)
    }
}

/// Whether `text` answers a `LIST` of `cells`.
pub open spec fn list_reply(cells: Map<u32, Cell>, text: Seq<char>) -> bool {
    if cells.len() == 0 {
        text == "Vault is empty\n"@
    } else {
        exists|ids: Seq<u32>|
            {
                &&& ascending(ids)
                &&& #[trigger] ids.to_set() == cells.dom()
                &&& text == occupied_text(ids)
            }
    }
}

/// The answer to a `TAKE` whose vault operation returned `r`.
pub open spec fn take_reply(r: Result<Item, VaultError>) -> Seq<char> {
    match r {
        Ok(item) => "OK: taken "@ + item.name@ + " "@ + decimal(item.size as nat) + "\n"@,
        Err(_) => "ERROR: item not found\n"@,
    }
}

/// Whether a `PUT` line has an id, a name and a size that parse.
pub open spec fn put_args_ok(w: Seq<Seq<char>>) -> bool {
    w.len() >= 4 && parsed_u32(w[1]) is Some && parsed_u32(w[3]) is Some
}

/// Whether a `TAKE` line has an id that parses and a name.
pub open spec fn take_args_ok(w: Seq<Seq<char>>) -> bool {
    w.len() >= 3 && parsed_u32(w[1]) is Some
}

/// Whether `w` starts with one of the command words.
pub open spec fn known_command(w: Seq<Seq<char>>) -> bool {
    w.len() > 0 && (w[0] == "PUT"@ || w[0] == "GET"@ || w[0] == "LIST"@ || w[0] == "TAKE"@
        || w[0] == "PING"@ || w[0] == "EXIT"@)
}

/// Relies on rand's `rng().random_range(lo..=hi)`: a value drawn from the
/// inclusive range; it panics only on an empty range, which `requires`
/// rules out.
#[verifier::external_body]
fn random_between(lo: u64, hi: u64) -> (r: u64)
    requires
        lo <= hi,
    ensures
        lo <= r <= hi,
{
    rand::rng().random_range(lo..=hi)
}

/// The command words are pairwise different.
proof fn lemma_command_words_differ()
    ensures
        "PUT"@ != "GET"@,
        "PUT"@ != "LIST"@,
        "PUT"@ != "TAKE"@,
        "PUT"@ != "PING"@,
        "PUT"@ != "EXIT"@,
        "GET"@ != "LIST"@,
        "GET"@ != "TAKE"@,
        "GET"@ != "PING"@,
        "GET"@ != "EXIT"@,
        "LIST"@ != "TAKE"@,
        "LIST"@ != "PING"@,
        "LIST"@ != "EXIT"@,
        "TAKE"@ != "PING"@,
        "TAKE"@ != "EXIT"@,
        "PING"@ != "EXIT"@,
{
    reveal_strlit("PUT");
    reveal_strlit("GET");
    reveal_strlit("LIST");
    reveal_strlit("TAKE");
    reveal_strlit("PING");
    reveal_strlit("EXIT");
    assert("PUT"@[0] != "GET"@[0]);
    assert("PUT"@.len() != "PING"@.len());
    assert("LIST"@[0] != "TAKE"@[0]);
    assert("LIST"@[0] != "PING"@[0]);
    assert("LIST"@[0] != "EXIT"@[0]);
    assert("TAKE"@[0] != "PING"@[0]);
    assert("TAKE"@[0] != "EXIT"@[0]);
    assert("PING"@[0] != "EXIT"@[0]);
}

/// The text of word `k` of `line`.
fn word_at<'a>(line: &'a str, spans: &Vec<(usize, usize)>, k: usize) -> (r: &'a str)
    requires
        k < spans@.len(),
        spans@.len() == word_spans(line@).len(),
        forall|j: int|
            0 <= j < spans@.len() ==> (spans@[j].0 as int, spans@[j].1 as int)
                == #[trigger] word_spans(line@)[j],
        forall|j: int| 0 <= j < spans@.len() ==> (#[trigger] spans@[j]).0 <= spans@[j].1 <= line@.len(),
    ensures
        r@ == words(line@)[k as int],
{
    let (a, b) = spans[k];
    proof {
        assert((spans@[k as int].0 as int, spans@[k as int].1 as int) == word_spans(line@)[k as int]);
    }
    line.substring_char(a, b)
}

/// Runs one command line against `vault` and says what to answer.
pub fn process_line(vault: &mut Vault, line: &str) -> (r: Action)
    ensures
        final(vault).capacity == old(vault).capacity,
        ({
            let w = words(line@);
            let before = old(vault).cells@;
            let after = final(vault).cells@;
            &&& w.len() == 0 ==> r is Nothing && after == before
            &&& !known_command(w) && w.len() > 0 ==> replies(r, "ERROR: unknown command\n"@)
                && after == before
            &&& w.len() > 0 && w[0] == "PUT"@ && !put_args_ok(w) ==> replies(
                r,
                "ERROR: usage PUT <id> <name> <size>\n"@,
            ) && after == before
            &&& w.len() > 0 && w[0] == "PUT"@ && put_args_ok(w) ==> exists|
                item: Item,
                res: Result<(), VaultError>,
            |
                {
                    &&& item.name@ == w[2]
                    &&& item.size == parsed_u32(w[3])->0
                    &&& #[trigger] put_done(
                        before,
                        old(vault).capacity,
                        parsed_u32(w[1])->0,
                        item,
                        MAX_CELL_SIZE,
                        after,
                        res,
                    )
                    &&& replies(r, put_reply(res))
                }
            &&& w.len() > 0 && w[0] == "GET"@ ==> after == before
            &&& w.len() == 1 && w[0] == "GET"@ ==> replies(r, "ERROR: usage GET <id>\n"@)
            &&& w.len() > 1 && w[0] == "GET"@ && parsed_u32(w[1]) is None ==> replies(
                r,
                "ERROR: invalid id\n"@,
            )
            &&& w.len() > 1 && w[0] == "GET"@ && parsed_u32(w[1]) is Some ==> replies(
                r,
                get_reply(before, parsed_u32(w[1])->0),
            )
            &&& w.len() > 0 && w[0] == "LIST"@ ==> r is Reply && list_reply(before, r->Reply_0@)
                && after == before
            &&& w.len() > 0 && w[0] == "TAKE"@ && !take_args_ok(w) ==> replies(
                r,
                "ERROR: usage TAKE <id> <name>\n"@,
            ) && after == before
            &&& w.len() > 0 && w[0] == "TAKE"@ && take_args_ok(w) ==> exists|
                res: Result<Item, VaultError>,
            |
                {
                    &&& #[trigger] take_done(before, parsed_u32(w[1])->0, w[2], after, res)
                    &&& replies(r, take_reply(res))
                }
            &&& w.len() > 0 && w[0] == "PING"@ ==> after == before && r is Delayed && PING_MIN_SECS
                <= r->secs <= PING_MAX_SECS && r->reply@ == "PONG\n"@
            &&& w.len() > 0 && w[0] == "EXIT"@ ==> after == before && r is Close && r->Close_0@
                == "Bye!\n"@
        }),
{
    proof {
        lemma_command_words_differ();
    }
    let ghost w = words(line@);
    let spans = split_words(line);
    assert(w.len() == spans@.len());
    if spans.len() == 0 {
        return Action::Nothing;
    }
    let cmd = word_at(line, &spans, 0);
    if same_text(cmd, "PUT") {
        if spans.len() < 4 {
            return Action::Reply(String::from_str("ERROR: usage PUT <id> <name> <size>\n"));
        }
        let id = parse_u32(word_at(line, &spans, 1));
        let name = word_at(line, &spans, 2);
        let size = parse_u32(word_at(line, &spans, 3));
        match (id, size) {
            (Some(id), Some(size)) => {
                let item = Item { name: String::from_str(name), size };
                let res = vault.put(id, item, MAX_CELL_SIZE);
                let text = match res {
                    Ok(()) => "OK: item stored\n",
                    Err(VaultError::VaultFull) => "ERROR: vault is full\n",
                    Err(VaultError::CellFull) => "ERROR: cell is full\n",
                    Err(_) => "ERROR: unknown error\n",
                };
                Action::Reply(String::from_str(text))
            },
            _ => Action::Reply(String::from_str("ERROR: usage PUT <id> <name> <size>\n")),
        }
    } else if same_text(cmd, "GET") {
        if spans.len() < 2 {
            return Action::Reply(String::from_str("ERROR: usage GET <id>\n"));
        }
        match parse_u32(word_at(line, &spans, 1)) {
            Some(id) => match vault.get(id) {
                Ok(Some(text)) => Action::Reply(text),
                Ok(None) => Action::Reply(String::from_str("Cell is empty\n")),
                Err(_) => Action::Reply(String::from_str("ERROR: cell not found\n")),
            },
            None => Action::Reply(String::from_str("ERROR: invalid id\n")),
        }
    } else if same_text(cmd, "LIST") {
        match vault.list() {
            Some(text) => Action::Reply(text),
            None => Action::Reply(String::from_str("Vault is empty\n")),
        }
    } else if same_text(cmd, "TAKE") {
        if spans.len() < 3 {
            return Action::Reply(String::from_str("ERROR: usage TAKE <id> <name>\n"));
        }
        match parse_u32(word_at(line, &spans, 1)) {
            Some(id) => {
                let name = word_at(line, &spans, 2);
                match vault.take(id, name) {
                    Ok(item) => {
                        let mut text = String::from_str("OK: taken ");
                        text.append(item.name.as_str());
                        text.append(" ");
                        let size = crate::text::decimal_string(item.size);
                        text.append(size.as_str());
                        text.append("\n");
                        Action::Reply(text)
                    },
                    Err(_) => Action::Reply(String::from_str("ERROR: item not found\n")),
                }
            },
            None => Action::Reply(String::from_str("ERROR: usage TAKE <id> <name>\n")),
        }
    } else if same_text(cmd, "PING") {
        let secs = random_between(PING_MIN_SECS, PING_MAX_SECS);
        Action::Delayed { secs, reply: String::from_str("PONG\n") }
    } else if same_text(cmd, "EXIT") {
        Action::Close(String::from_str("Bye!\n"))
    } else {
        Action::Reply(String::from_str("ERROR: unknown command\n"))
    }
}

} // verus!
