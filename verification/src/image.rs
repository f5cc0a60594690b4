//! Images: how they are listed.

use crate::command::{texts, CommandLine, CommandModel};
use crate::container::is_filled;
use crate::listing::{in_key_order, lemma_sorted_by_key, sort_by_key, sorted_by_key, Keyed};
use crate::model::SseTask;
use crate::runner::{RunnerModel, TaskRunner};
use crate::text::{chars_of, cut, part, split, split_bounds, trim, trim_bounds, CharClass};
use vstd::prelude::*;

verus! {

/// One row of the image listing, as the container tool reports it.
#[derive(Debug)]
pub struct Image {
    pub containers: String,
    pub created_at: String,
    pub created_since: String,
    pub digest: String,
    pub id: String,
    pub repository: String,
    pub shared_size: String,
    pub size: String,
    pub tag: String,
    pub unique_size: String,
    pub virtual_size: String,
}

impl Clone for Image {
    fn clone(&self) -> (copy: Self)
        ensures
            copy == *self,
    {
        Image {
            containers: self.containers.clone(),
            created_at: self.created_at.clone(),
            created_since: self.created_since.clone(),
            digest: self.digest.clone(),
            id: self.id.clone(),
            repository: self.repository.clone(),
            shared_size: self.shared_size.clone(),
            size: self.size.clone(),
            tag: self.tag.clone(),
            unique_size: self.unique_size.clone(),
            virtual_size: self.virtual_size.clone(),
        }
    }
}

impl Keyed for Image {
    /// Images are listed by repository.
    open spec fn key(&self) -> Seq<char> {
        self.repository@
    }

    fn key_chars(&self) -> (chars: Vec<char>) {
        chars_of(self.repository.as_str())
    }
}

/// The command that lists all images, one quoted JSON object per line.
pub open spec fn list_images() -> CommandModel {
    CommandModel::docker(
        seq!["images"@, "--all"@, "--no-trunc"@, "--format"@, "'{{json .}}'"@],
        None,
    )
}

/// Text without the white space around it and then without the quotes
/// around what is left.
pub open spec fn bare(text: Seq<char>) -> Seq<char> {
    trim(trim(text, CharClass::Whitespace), CharClass::Quote)
}

/// A row laid bare.
pub open spec fn cleaned() -> spec_fn(Seq<char>) -> Seq<char> {
    |row: Seq<char>| bare(row)
}

/// The rows of the image listing: the lines of the bare output, each laid
/// bare, without those of which nothing is left.
pub open spec fn image_rows(output: Seq<char>) -> Seq<Seq<char>> {
    split(bare(output), '\n').map_values(cleaned()).filter(is_filled())
}

/// The test for a row that was understood.
pub open spec fn is_understood() -> spec_fn(Option<Image>) -> bool {
    |row: Option<Image>| row is Some
}

/// The image of a row that was understood.
pub open spec fn image_of() -> spec_fn(Option<Image>) -> Image {
    |row: Option<Image>| row->0
}

/// The image listing: the rows that were understood, by repository.
pub open spec fn image_listing(rows: Seq<Option<Image>>) -> Seq<Image> {
    sorted_by_key(rows.filter(is_understood()).map_values(image_of()))
}

impl Image {
    /// The command that lists all images.
    pub fn list_command() -> (command: CommandLine)
        ensures
            command@ == list_images(),
    {
        let command = CommandLine::docker(None).arg("images").arg("--all").arg("--no-trunc").arg(
            "--format",
        ).arg("'{{json .}}'");
        assert(command@.args =~= list_images().args);
        command
    }

    /// The task that removes all unused images: it announces `docker image
    /// prune --all --force`, runs it and publishes what it prints, line by
    /// line. It works on no resource and publishes under the identifier of
    /// the task, whatever `event_name` is.
    pub fn prune(event_name: &str) -> (runner: TaskRunner)
        ensures
            runner@ == RunnerModel::initial(SseTask::PruneImages, event_name@),
            runner@.key() == SseTask::PruneImages.name(),
    {
        TaskRunner::new(SseTask::PruneImages, event_name.to_owned())
    }

    /// Cuts the output of the list command into rows.
    pub fn rows(output: &str) -> (rows: Vec<String>)
        ensures
            texts(rows@) == image_rows(output@),
    {
        let chars = chars_of(output);
        assert(chars@.subrange(0, chars@.len() as int) =~= chars@);
        let (a, b) = trim_bounds(&chars, 0, chars.len(), CharClass::Whitespace);
        let (c, d) = trim_bounds(&chars, a, b, CharClass::Quote);
        let bounds = split_bounds(&chars, c, d, '\n');
        let ghost pieces = cut(chars@, bounds@);
        let mut rows: Vec<String> = Vec::new();
        let mut k: usize = 0;
        while k < bounds.len()
            invariant
                k <= bounds.len(),
                chars@ == output@,
                crate::text::within(bounds@, chars@.len() as int),
                pieces == cut(chars@, bounds@),
                texts(rows@) == pieces.take(k as int).map_values(cleaned()).filter(is_filled()),
            decreases bounds.len() - k,
        {
            let (from, to) = bounds[k];
            let (from, to) = trim_bounds(&chars, from, to, CharClass::Whitespace);
            let (from, to) = trim_bounds(&chars, from, to, CharClass::Quote);
            proof {
                let seen = pieces.take(k as int).map_values(cleaned());
                assert(pieces.take(k + 1).map_values(cleaned()) =~= seen.push(
                    bare(pieces[k as int]),
                ));
                Seq::lemma_filter_push(seen, bare(pieces[k as int]), is_filled());
            }
            if from < to {
                rows.push(part(output, from, to));
            }
            k += 1;
        }
        assert(pieces.take(k as int) =~= pieces);
        rows
    }

    /// Makes the image listing from the rows of the list command, each given
    /// as the image it describes, or as nothing where the row could not be
    /// understood.
    pub fn get_all(rows: Vec<Option<Image>>) -> (listing: Vec<Image>)
        ensures
            listing@ == image_listing(rows@),
    {
        let mut kept: Vec<Image> = Vec::new();
        for row in it: rows
            invariant
                it.seq() == rows@,
                kept@ == it.seq().take(it.index() as int).filter(is_understood()).map_values(
                    image_of(),
                ),
        {
            proof {
                let seen = it.seq().take(it.index() as int);
                assert(it.seq().take(it.index() + 1) =~= seen.push(row));
                Seq::lemma_filter_push(seen, row, is_understood());
            }
            match row {
                Some(image) => {
                    kept.push(image);
                },
                None => {},
            }
        }
        assert(rows@.take(rows@.len() as int) =~= rows@);
        sort_by_key(kept)
    }
}

/// What the image listing holds: each row that was understood exactly once,
/// repositories that never go down, and images of one repository in the
/// order of their rows.
pub proof fn lemma_image_listing(rows: Seq<Option<Image>>)
    ensures
        in_key_order(image_listing(rows)),
        image_listing(rows).to_multiset() == rows.filter(is_understood()).map_values(
            image_of(),
        ).to_multiset(),
        image_listing(rows).len() == rows.filter(is_understood()).len(),
{
    lemma_sorted_by_key(rows.filter(is_understood()).map_values(image_of()));
}

} // verus!
