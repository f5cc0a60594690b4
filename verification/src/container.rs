//! Containers: how they are listed, and where their compose project lives.

use crate::command::{texts, CommandLine, CommandModel};
use crate::error::Failure;
use crate::listing::{in_key_order, lemma_sorted_by_key, sort_by_key, sorted_by_key, Keyed};
use crate::model::SseTask;
use crate::runner::{RunnerModel, TaskRunner};
use crate::text::{before_last, chars_of, concat, contains_text, cut, find, is_not, is_space,
    lemma_before_last, lemma_split_concat, lemma_trim, part, split, split_bounds, trim,
    trim_bounds, without, CharClass};
use vstd::prelude::*;
use vstd::string::*;

verus! {

/// One row of the container listing, as the container tool reports it.
#[derive(Debug)]
pub struct Container {
    pub id: String,
    pub image: String,
    pub command: String,
    pub created_at: String,
    pub running_for: String,
    pub ports: String,
    pub status: String,
    pub size: String,
    pub names: String,
    pub labels: String,
    pub mounts: String,
    pub networks: String,
    pub state: String,
    pub local_volumes: String,
}

impl Clone for Container {
    fn clone(&self) -> (copy: Self)
        ensures
            copy == *self,
    {
        Container {
            id: self.id.clone(),
            image: self.image.clone(),
            command: self.command.clone(),
            created_at: self.created_at.clone(),
            running_for: self.running_for.clone(),
            ports: self.ports.clone(),
            status: self.status.clone(),
            size: self.size.clone(),
            names: self.names.clone(),
            labels: self.labels.clone(),
            mounts: self.mounts.clone(),
            networks: self.networks.clone(),
            state: self.state.clone(),
            local_volumes: self.local_volumes.clone(),
        }
    }
}

impl Keyed for Container {
    /// Containers are listed by name.
    open spec fn key(&self) -> Seq<char> {
        self.names@
    }

    fn key_chars(&self) -> (chars: Vec<char>) {
        chars_of(self.names.as_str())
    }
}

/// The label that a compose project puts on its containers. Its value is
/// the path of the project's compose file.
pub open spec fn compose_label() -> Seq<char> {
    "com.docker.compose.project.config_files"@
}

/// The command that lists all containers, one quoted JSON object per line.
pub open spec fn list_containers() -> CommandModel {
    CommandModel::docker(
        seq!["ps"@, "--all"@, "--no-trunc"@, "--format"@, "'{{json .}}'"@],
        None,
    )
}

/// The command that prints, in quotes, the compose file label of the
/// container called `name`.
pub open spec fn inspect_container(name: Seq<char>) -> CommandModel {
    CommandModel::docker(
        seq![
            "inspect"@,
            name,
            "--format"@,
            "'{{ index .Config.Labels \"com.docker.compose.project.config_files\" }}'"@,
        ],
        None,
    )
}

/// The test for a row that is not empty.
pub open spec fn is_filled() -> spec_fn(Seq<char>) -> bool {
    |row: Seq<char>| row.len() > 0
}

/// A row without the quotes around it.
pub open spec fn unquoted() -> spec_fn(Seq<char>) -> Seq<char> {
    |row: Seq<char>| trim(row, CharClass::Quote)
}

/// The rows of the container listing: the lines of the output that are not
/// empty, each without the quotes around it.
pub open spec fn container_rows(output: Seq<char>) -> Seq<Seq<char>> {
    split(output, '\n').filter(is_filled()).map_values(unquoted())
}

/// The path of the compose file that the output of the inspect command
/// names: the output without quotes and without white space around it.
pub open spec fn config_path(inspected: Seq<char>) -> Seq<char> {
    trim(without(inspected, '\''), CharClass::Whitespace)
}

/// The test for a row that was understood and carries the compose label.
pub open spec fn is_listed() -> spec_fn(Option<Container>) -> bool {
    |row: Option<Container>|
        match row {
            Some(container) => contains_text(container.labels@, compose_label()),
            None => false,
        }
}

/// The container of a row that was understood.
pub open spec fn container_of() -> spec_fn(Option<Container>) -> Container {
    |row: Option<Container>| row->0
}

/// The container listing: of the rows that were understood, those that carry
/// the compose label, by name.
pub open spec fn container_listing(rows: Seq<Option<Container>>) -> Seq<Container> {
    sorted_by_key(rows.filter(is_listed()).map_values(container_of()))
}

impl Container {
    /// The command that lists all containers.
    pub fn list_command() -> (command: CommandLine)
        ensures
            command@ == list_containers(),
    {
        let command = CommandLine::docker(None).arg("ps").arg("--all").arg("--no-trunc").arg(
            "--format",
        ).arg("'{{json .}}'");
        assert(command@.args =~= list_containers().args);
        command
    }

    /// The command that prints the compose file label of a container.
    pub fn inspect_command(name: &str) -> (command: CommandLine)
        ensures
            command@ == inspect_container(name@),
    {
        let command = CommandLine::docker(None).arg("inspect").arg(name).arg("--format").arg(
            "'{{ index .Config.Labels \"com.docker.compose.project.config_files\" }}'",
        );
        assert(command@.args =~= inspect_container(name@).args);
        command
    }

    /// Cuts the output of the list command into rows.
    pub fn rows(output: &str) -> (rows: Vec<String>)
        ensures
            texts(rows@) == container_rows(output@),
    {
        let chars = chars_of(output);
        let bounds = split_bounds(&chars, 0, chars.len(), '\n');
        assert(chars@.subrange(0, chars@.len() as int) =~= chars@);
        let ghost pieces = cut(chars@, bounds@);
        let mut rows: Vec<String> = Vec::new();
        let mut k: usize = 0;
        while k < bounds.len()
            invariant
                k <= bounds.len(),
                chars@ == output@,
                crate::text::within(bounds@, chars@.len() as int),
                pieces == cut(chars@, bounds@),
                texts(rows@) == pieces.take(k as int).filter(is_filled()).map_values(unquoted()),
            decreases bounds.len() - k,
        {
            let (from, to) = bounds[k];
            proof {
                assert(pieces.take(k + 1) =~= pieces.take(k as int).push(pieces[k as int]));
                Seq::lemma_filter_push(pieces.take(k as int), pieces[k as int], is_filled());
            }
            if from < to {
                let (a, b) = trim_bounds(&chars, from, to, CharClass::Quote);
                rows.push(part(output, a, b));
                assert(pieces.take(k + 1).filter(is_filled()).map_values(unquoted()) =~= pieces.take(
                    k as int,
                ).filter(is_filled()).map_values(unquoted()).push(
                    trim(pieces[k as int], CharClass::Quote),
                ));
            }
            k += 1;
        }
        assert(pieces.take(k as int) =~= pieces);
        rows
    }

    /// Whether the container carries the compose label.
    pub fn has_compose_label(&self) -> (carries: bool)
        ensures
            carries == contains_text(self.labels@, compose_label()),
    {
        let labels = chars_of(self.labels.as_str());
        let label = chars_of("com.docker.compose.project.config_files");
        find(&labels, &label)
    }

    /// Makes the container listing from the rows of the list command, each
    /// given as the container it describes, or as nothing where the row
    /// could not be understood.
    pub fn get_all(rows: Vec<Option<Container>>) -> (listing: Vec<Container>)
        ensures
            listing@ == container_listing(rows@),
    {
        let mut kept: Vec<Container> = Vec::new();
        for row in it: rows
            invariant
                it.seq() == rows@,
                kept@ == it.seq().take(it.index() as int).filter(is_listed()).map_values(
                    container_of(),
                ),
        {
            proof {
                let seen = it.seq().take(it.index() as int);
                assert(it.seq().take(it.index() + 1) =~= seen.push(row));
                Seq::lemma_filter_push(seen, row, is_listed());
            }
            match row {
                Some(container) => {
                    if container.has_compose_label() {
                        kept.push(container);
                    }
                },
                None => {},
            }
        }
        assert(rows@.take(rows@.len() as int) =~= rows@);
        sort_by_key(kept)
    }

    /// The task that pulls the images of the compose project of the
    /// container called `name`: it finds the directory of the project,
    /// announces `docker compose pull`, runs it there and publishes what it
    /// prints, line by line, under the name of the container.
    pub fn pull(name: String) -> (runner: TaskRunner)
        ensures
            runner@ == RunnerModel::initial(SseTask::Pull, name@),
    {
        TaskRunner::new(SseTask::Pull, name)
    }

    /// The task that brings the compose project of the container called
    /// `name` down and up again: `docker compose down`, then `docker compose
    /// up -d`, each announced and run in the directory of the project, with
    /// what it prints published line by line under the name of the container.
    /// The second command runs only if the first one succeeds.
    pub fn update(name: String) -> (runner: TaskRunner)
        ensures
            runner@ == RunnerModel::initial(SseTask::Update, name@),
    {
        TaskRunner::new(SseTask::Update, name)
    }

    /// The task that shows the compose file of the container called `name`:
    /// it finds the file, reads it and publishes its lines, joined by line
    /// feeds, as one event under the name of the container.
    pub fn get_config(name: String) -> (runner: TaskRunner)
        ensures
            runner@ == RunnerModel::initial(SseTask::GetConfig, name@),
    {
        TaskRunner::new(SseTask::GetConfig, name)
    }

    /// Reads the path of the compose file from the output of the inspect
    /// command. A container without the label, or with an empty one, has no
    /// compose file.
    pub fn get_compose_config_file_path(inspected: &str) -> (path: Result<String, Failure>)
        ensures
            match path {
                Ok(path) => path@ == config_path(inspected@) && path@.len() > 0,
                Err(failure) => failure == Failure::NoComposeFile && config_path(inspected@).len()
                    == 0,
            },
    {
        let chars = chars_of(inspected);
        let bounds = split_bounds(&chars, 0, chars.len(), '\'');
        assert(chars@.subrange(0, chars@.len() as int) =~= chars@);
        let ghost pieces = cut(chars@, bounds@);
        let mut bare = String::new();
        let mut k: usize = 0;
        while k < bounds.len()
            invariant
                k <= bounds.len(),
                chars@ == inspected@,
                crate::text::within(bounds@, chars@.len() as int),
                pieces == cut(chars@, bounds@),
                bare@ == concat(pieces.take(k as int)),
            decreases bounds.len() - k,
        {
            let (from, to) = bounds[k];
            let piece = part(inspected, from, to);
            bare.append(piece.as_str());
            assert(pieces.take(k + 1).drop_last() =~= pieces.take(k as int));
            k += 1;
        }
        proof {
            assert(pieces.take(k as int) =~= pieces);
            lemma_split_concat(chars@, '\'');
        }
        let cleaned = chars_of(bare.as_str());
        let (a, b) = trim_bounds(&cleaned, 0, cleaned.len(), CharClass::Whitespace);
        assert(cleaned@.subrange(0, cleaned@.len() as int) =~= cleaned@);
        if a == b {
            Err(Failure::NoComposeFile)
        } else {
            Ok(part(bare.as_str(), a, b))
        }
    }

    /// Reads the directory of the compose project from the output of the
    /// inspect command: the directory that holds the compose file.
    pub fn get_compose_dir(inspected: &str) -> (dir: Result<String, Failure>)
        ensures
            match dir {
                Ok(dir) => dir@ == before_last(config_path(inspected@), '/') && config_path(
                    inspected@,
                ).len() > 0,
                Err(failure) => failure == Failure::NoComposeFile && config_path(inspected@).len()
                    == 0,
            },
    {
        match Container::get_compose_config_file_path(inspected) {
            Ok(path) => Ok(parent_dir(path.as_str())),
            Err(failure) => Err(failure),
        }
    }
}

/// The directory that holds the file at `path`: what stands before the last
/// slash of the path.
pub fn parent_dir(path: &str) -> (dir: String)
    ensures
        dir@ == before_last(path@, '/'),
{
    let chars = chars_of(path);
    let mut end: usize = chars.len();
    assert(chars@.take(end as int) =~= chars@);
    while end > 0 && chars[end - 1] != '/'
        invariant
            end <= chars.len(),
            before_last(chars@, '/') == before_last(chars@.take(end as int), '/'),
        decreases end,
    {
        proof {
            lemma_before_last(chars@.take(end as int), '/');
            assert(chars@.take(end as int).drop_last() =~= chars@.take(end - 1));
        }
        end -= 1;
    }
    proof {
        lemma_before_last(chars@.take(end as int), '/');
    }
    if end == 0 {
        String::new()
    } else {
        part(path, 0, end - 1)
    }
}

/// The path that is read from the output of the inspect command holds no
/// quote, and neither begins nor ends with white space.
pub proof fn lemma_config_path(inspected: Seq<char>)
    ensures
        !config_path(inspected).contains('\''),
        config_path(inspected).len() > 0 ==> !is_space(config_path(inspected).first())
            && !is_space(config_path(inspected).last()),
{
    let bare = without(inspected, '\'');
    let bounds = lemma_trim(bare, CharClass::Whitespace);
    let path = config_path(inspected);
    assert forall|i: int| 0 <= i < path.len() implies path[i] != '\'' by {
        assert(path[i] == bare[bounds.0 + i]);
        Seq::lemma_filter_pred(inspected, is_not('\''), bounds.0 + i);
    }
}

/// What the container listing holds: only containers that carry the compose
/// label, each row that was understood and carries it exactly once, names
/// that never go down, and containers of one name in the order of their
/// rows. A row that was not understood changes nothing but its own absence.
pub proof fn lemma_container_listing(rows: Seq<Option<Container>>)
    ensures
        forall|i: int|
            0 <= i < container_listing(rows).len() ==> contains_text(
                (#[trigger] container_listing(rows)[i]).labels@,
                compose_label(),
            ),
        in_key_order(container_listing(rows)),
        container_listing(rows).to_multiset() == rows.filter(is_listed()).map_values(
            container_of(),
        ).to_multiset(),
        container_listing(rows).len() == rows.filter(is_listed()).len(),
        container_listing(rows.filter(|row: Option<Container>| row is Some)) == container_listing(
            rows,
        ),
{
    let kept = rows.filter(is_listed()).map_values(container_of());
    let listing = container_listing(rows);
    lemma_sorted_by_key(kept);
    assert forall|i: int| 0 <= i < listing.len() implies contains_text(
        (#[trigger] listing[i]).labels@,
        compose_label(),
    ) by {
        vstd::seq_lib::to_multiset_contains(listing, listing[i]);
        vstd::seq_lib::to_multiset_contains(kept, listing[i]);
        assert(listing.contains(listing[i]));
        let j = choose|j: int| 0 <= j < kept.len() && kept[j] == listing[i];
        Seq::lemma_filter_pred(rows, is_listed(), j);
    }
    lemma_filter_twice(rows, |row: Option<Container>| row is Some, is_listed());
}

/// Filtering by a weaker test first changes nothing.
proof fn lemma_filter_twice<T>(s: Seq<T>, weak: spec_fn(T) -> bool, strong: spec_fn(T) -> bool)
    requires
        forall|x: T| #[trigger] strong(x) ==> weak(x),
    ensures
        s.filter(weak).filter(strong) == s.filter(strong),
    decreases s.len(),
{
    if s.len() > 0 {
        lemma_filter_twice(s.drop_last(), weak, strong);
        assert(s =~= s.drop_last().push(s.last()));
        Seq::lemma_filter_push(s.drop_last(), s.last(), weak);
        Seq::lemma_filter_push(s.drop_last(), s.last(), strong);
        if weak(s.last()) {
            Seq::lemma_filter_push(s.drop_last().filter(weak), s.last(), strong);
        }
    }
}

} // verus!
