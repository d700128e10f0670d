//! The folders of the protocol and what is done with each file in them.

use crate::api::{ActionStatus, Receipt};
use crate::config::AppConfig;
use crate::paths::{join_path, joined_path, name_stem, stem_of_name, PathStyle};
use crate::table::{in_order, in_text_order};
use crate::text::{cat, ends, ends_with, texts};
use vstd::prelude::*;

verus! {

/// Where the files of the protocol lie.
#[derive(Debug)]
pub struct ApiPaths {
    pub style: PathStyle,
    pub root: String,
    pub commands: String,
    pub processing: String,
    pub receipts: String,
    pub intents: String,
    pub intents_processing: String,
    pub intents_applied: String,
    pub dead: String,
    pub state_file: String,
}

pub open spec fn with_json(stem: Seq<char>) -> Seq<char> {
    stem + ".json"@
}

impl ApiPaths {
    /// The layout below a folder.
    pub fn from_root(style: PathStyle, root: &str) -> (r: Self)
        ensures
            r.style == style,
            r.root@ == root@,
            r.commands@ == joined_path(style, root@, "commands"@),
            r.processing@ == joined_path(style, root@, "processing"@),
            r.receipts@ == joined_path(style, root@, "receipts"@),
            r.intents@ == joined_path(style, root@, "intents"@),
            r.intents_processing@ == joined_path(
                style,
                joined_path(style, root@, "intents"@),
                "processing"@,
            ),
            r.intents_applied@ == joined_path(
                style,
                joined_path(style, root@, "intents"@),
                "applied"@,
            ),
            r.dead@ == joined_path(style, root@, "dead"@),
            r.state_file@ == joined_path(style, joined_path(style, root@, "state"@), "state.json"@),
    {
        let intents = join_path(style, root, "intents");
        let state = join_path(style, root, "state");
        ApiPaths {
            style,
            root: root.to_owned(),
            commands: join_path(style, root, "commands"),
            processing: join_path(style, root, "processing"),
            receipts: join_path(style, root, "receipts"),
            intents_processing: join_path(style, intents.as_str(), "processing"),
            intents_applied: join_path(style, intents.as_str(), "applied"),
            intents,
            dead: join_path(style, root, "dead"),
            state_file: join_path(style, state.as_str(), "state.json"),
        }
    }

    /// The layout below the folder that is configured for it.
    pub fn from_config(style: PathStyle, config: &AppConfig) -> (r: Self)
        ensures
            r.style == style,
            r.root@ == config.api_root@,
            r.commands@ == joined_path(style, config.api_root@, "commands"@),
            r.processing@ == joined_path(style, config.api_root@, "processing"@),
            r.receipts@ == joined_path(style, config.api_root@, "receipts"@),
            r.intents@ == joined_path(style, config.api_root@, "intents"@),
            r.intents_processing@ == joined_path(
                style,
                joined_path(style, config.api_root@, "intents"@),
                "processing"@,
            ),
            r.intents_applied@ == joined_path(
                style,
                joined_path(style, config.api_root@, "intents"@),
                "applied"@,
            ),
            r.dead@ == joined_path(style, config.api_root@, "dead"@),
            r.state_file@ == joined_path(
                style,
                joined_path(style, config.api_root@, "state"@),
                "state.json"@,
            ),
    {
        Self::from_root(style, config.api_root.as_str())
    }

    pub open spec fn file_in(&self, folder: String, stem: Seq<char>) -> Seq<char> {
        joined_path(self.style, folder@, with_json(stem))
    }

    fn place_in(&self, folder: &String, stem: &str) -> (r: String)
        ensures
            r@ == self.file_in(*folder, stem@),
    {
        let name = cat(stem, ".json");
        join_path(self.style, folder.as_str(), name.as_str())
    }

    pub fn receipt_path(&self, action_id: &str) -> (r: String)
        ensures
            r@ == self.file_in(self.receipts, action_id@),
    {
        self.place_in(&self.receipts, action_id)
    }

    pub fn intent_path(&self, action_id: &str) -> (r: String)
        ensures
            r@ == self.file_in(self.intents, action_id@),
    {
        self.place_in(&self.intents, action_id)
    }

    /// Where a finished intent is kept.
    pub fn applied_path(&self, action_id: &str) -> (r: String)
        ensures
            r@ == self.file_in(self.intents_applied, action_id@),
    {
        self.place_in(&self.intents_applied, action_id)
    }

    /// Where a command file that cannot be read goes.
    pub fn dead_path(&self, action_id: &str) -> (r: String)
        ensures
            r@ == self.file_in(self.dead, action_id@),
    {
        self.place_in(&self.dead, action_id)
    }

    /// Where a command lies while it is worked on.
    pub fn processing_path(&self, stem: &str) -> (r: String)
        ensures
            r@ == self.file_in(self.processing, stem@),
    {
        self.place_in(&self.processing, stem)
    }

    /// The file whose presence ends the watch over the queue.
    pub fn stop_file(&self) -> (r: String)
        ensures
            r@ == joined_path(self.style, self.root@, "stop"@),
    {
        join_path(self.style, self.root.as_str(), "stop")
    }
}

/// Whether a file takes part in the protocol: it is complete and holds JSON.
pub open spec fn is_queue_file(name: Seq<char>) -> bool {
    !ends(name, ".tmp"@) && ends(name, ".json"@)
}

pub fn queue_file(name: &str) -> (r: bool)
    ensures
        r == is_queue_file(name@),
{
    !ends_with(name, ".tmp") && ends_with(name, ".json")
}

/// The command files among the names of a folder, in order.
pub fn queue_files(names: &Vec<String>) -> (r: Vec<String>)
    ensures
        in_text_order(texts(r@)),
        forall|k: Seq<char>| #[trigger]
            texts(r@).contains(k) <==> texts(names@).contains(k) && is_queue_file(k),
{
    let mut kept: Vec<String> = Vec::new();
    let n: usize = names.len();
    let mut i: usize = 0;
    assert(texts(kept@) =~= Seq::<Seq<char>>::empty());
    while i < n
        invariant
            i <= n,
            n == names@.len(),
            forall|k: Seq<char>| #[trigger]
                texts(kept@).contains(k) <==> texts(names@).take(i as int).contains(k)
                    && is_queue_file(k),
        decreases n - i,
    {
        let ghost before = texts(kept@);
        let ghost name = names@[i as int]@;
        let keep = queue_file(names[i].as_str());
        if keep {
            let copy = names[i].clone();
            kept.push(copy);
            assert(texts(kept@) =~= before.push(copy@));
        }
        proof {
            let after = texts(kept@);
            let head = texts(names@).take(i as int);
            let next = texts(names@).take(i + 1);
            assert(texts(names@)[i as int] == name);
            assert(next =~= head.push(name));
            assert forall|k: Seq<char>| #[trigger]
                after.contains(k) <==> next.contains(k) && is_queue_file(k) by {
                assert(before.contains(k) <==> head.contains(k) && is_queue_file(k));
                if head.contains(k) {
                    assert(next[head.index_of(k)] == k);
                }
                if before.contains(k) {
                    assert(after[before.index_of(k)] == k);
                }
                if k == name {
                    assert(next[i as int] == k);
                    if keep {
                        assert(after[before.len() as int] == k);
                    }
                }
                if next.contains(k) && k != name {
                    assert(head[next.index_of(k)] == k);
                }
                if after.contains(k) && !before.contains(k) {
                    let j = after.index_of(k);
                    if j < before.len() {
                        assert(before[j] == k);
                    }
                }
            }
        }
        i += 1;
    }
    assert(texts(names@).take(n as int) =~= texts(names@));
    in_order(&kept)
}

/// What is done with a command file.
#[derive(Debug)]
pub enum QueueAction {
    /// The command has its receipt: the file is removed.
    Drop,
    /// The file is moved to this place before it is read.
    Claim { target: String },
}

/// What is done with the command file of the given name.
pub fn queue_action(paths: &ApiPaths, name: &str, has_receipt: bool) -> (r: QueueAction)
    ensures
        match r {
            QueueAction::Drop => has_receipt,
            QueueAction::Claim { target } => !has_receipt && target@ == paths.file_in(
                paths.processing,
                stem_of_name(name@),
            ),
        },
{
    if has_receipt {
        QueueAction::Drop
    } else {
        let stem = name_stem(name);
        QueueAction::Claim { target: paths.processing_path(stem.as_str()) }
    }
}

/// Whether the receipt of a command from the queue is still to be written. That of an accepted
/// intent is written already, and the window may have replaced it meanwhile.
pub fn receipt_is_due(receipt: &Receipt) -> (r: bool)
    ensures
        r == (receipt.status != ActionStatus::Accepted),
{
    !matches!(receipt.status, ActionStatus::Accepted)
}

/// What is done at the start with a file that was left in work.
#[derive(Debug)]
pub enum ProcessingAction {
    Ignore,
    /// The command has its receipt: the file is removed.
    Drop,
    /// The file goes back to the queue.
    Requeue { target: String },
}

/// What is done at the start with a file that was left in work.
pub fn processing_action(paths: &ApiPaths, name: &str, has_receipt: bool) -> (r: ProcessingAction)
    ensures
        match r {
            ProcessingAction::Ignore => !is_queue_file(name@),
            ProcessingAction::Drop => is_queue_file(name@) && has_receipt,
            ProcessingAction::Requeue { target } => {
                &&& is_queue_file(name@)
                &&& !has_receipt
                &&& target@ == joined_path(paths.style, paths.commands@, name@)
            },
        },
{
    if !queue_file(name) {
        ProcessingAction::Ignore
    } else if has_receipt {
        ProcessingAction::Drop
    } else {
        ProcessingAction::Requeue {
            target: join_path(paths.style, paths.commands.as_str(), name),
        }
    }
}

/// How long the watch waits between two passes over the queue, in milliseconds.
pub fn poll_interval(poll_ms: u64) -> (r: u64)
    ensures
        r == if poll_ms == 0 {
            1
        } else {
            poll_ms
        },
{
    if poll_ms == 0 {
        1
    } else {
        poll_ms
    }
}

} // verus!
