//! Content formatter: turns what a device sent into pieces that the chat
//! platform takes in one send each.

use crate::chunks::{
    chunk, chunk_count, chunks_joined, lemma_chunk_bounds, lemma_chunk_count, lemma_chunk_len,
    lemma_chunks_cover,
};
use crate::embed::{textfield_views, EmbedContent, EmbedContentView};
use crate::mentions::{extract_mentions, mention_line, mentions_of};
use crate::messages::{TextField, TextFieldView};
use crate::text::{decimal, decimal_string};
use vstd::prelude::*;
use vstd::slice::{slice_subrange, slice_to_vec};
use vstd::string::StringExecFns;

verus! {

/// Largest attachment, in bytes, that the platform takes in one send.
pub const ATTACHMENT_CEILING: usize = 8388608;

/// Largest number of text fields that the platform shows in one embed.
pub const MAX_FIELDS: usize = 25;

/// One sendable piece of a file.
#[derive(Clone, Debug, PartialEq, Eq)]
pub struct FileChunk {
    /// The text to send with the piece.
    pub label: String,
    /// The name of the file the piece is cut from.
    pub filename: String,
    /// The bytes of the piece.
    pub data: Vec<u8>,
}

/// Mathematical content of a [`FileChunk`].
pub struct FileChunkView {
    pub label: Seq<char>,
    pub filename: Seq<char>,
    pub data: Seq<u8>,
}

impl View for FileChunk {
    type V = FileChunkView;

    open spec fn view(&self) -> FileChunkView {
        FileChunkView { label: self.label@, filename: self.filename@, data: self.data@ }
    }
}

/// The views of a run of chunks.
pub open spec fn chunk_views(chunks: Seq<FileChunk>) -> Seq<FileChunkView> {
    chunks.map_values(|c: FileChunk| c@)
}

/// The label of piece `i` of `count`: the bare file name for a file sent in
/// one piece, else the name with `(part N/M)` after it, counting from one.
pub open spec fn chunk_label(filename: Seq<char>, i: int, count: nat) -> Seq<char> {
    if count == 1 {
        filename
    } else {
        filename + " (part "@ + decimal((i + 1) as nat) + "/"@ + decimal(count) + ")"@
    }
}

/// Piece `i` of a file cut at `ceiling` bytes.
pub open spec fn file_chunk(filename: Seq<char>, data: Seq<u8>, ceiling: nat, i: int)
    -> FileChunkView {
    FileChunkView {
        label: chunk_label(filename, i, chunk_count(data.len(), ceiling)),
        filename,
        data: chunk(data, ceiling, i),
    }
}

/// The pieces of a file cut at `ceiling` bytes, in order.
pub open spec fn file_chunks(filename: Seq<char>, data: Seq<u8>, ceiling: nat) -> Seq<
    FileChunkView,
> {
    Seq::new(
        chunk_count(data.len(), ceiling),
        |i: int| file_chunk(filename, data, ceiling, i),
    )
}

/// The bytes of a run of pieces, one after the other.
pub open spec fn joined_data(chunks: Seq<FileChunkView>) -> Seq<u8>
    decreases chunks.len(),
{
    if chunks.len() == 0 {
        Seq::empty()
    } else {
        joined_data(chunks.drop_last()) + chunks.last().data
    }
}

/// The label of piece `index` of `count`.
fn part_label(filename: &str, index: usize, count: usize) -> (label: String)
    requires
        index < count,
    ensures
        label@ == chunk_label(filename@, index as int, count as nat),
{
    let mut label = String::from_str(filename);
    if count != 1 {
        label.append(" (part ");
        label.append(decimal_string((index + 1) as u64).as_str());
        label.append("/");
        label.append(decimal_string(count as u64).as_str());
        label.append(")");
    }
    label
}

/// How many chunks of at most `size` items a run of `len` items is cut into.
fn count_chunks(len: usize, size: usize) -> (count: usize)
    requires
        size > 0,
    ensures
        count == chunk_count(len as nat, size as nat),
        count >= 1,
{
    if len == 0 {
        1
    } else {
        proof {
            lemma_chunk_count(len as nat, size as nat);
            vstd::arithmetic::div_mod::lemma_div_is_ordered(len - 1, len as int, size as int);
            vstd::arithmetic::div_mod::lemma_div_pos_is_pos(len - 1, size as int);
            assert(len as int / size as int <= len) by (nonlinear_arith)
                requires
                    len >= 0,
                    size >= 1,
            ;
        }
        (len - 1) / size + 1
    }
}

/// Where chunk `i` of a run of `len` items starts and ends.
fn chunk_range(len: usize, size: usize, i: usize) -> (range: (usize, usize))
    requires
        size > 0,
        i < chunk_count(len as nat, size as nat),
    ensures
        range.0 as int == crate::chunks::least(i * size, len as int),
        range.1 as int == crate::chunks::least((i + 1) * size, len as int),
        range.0 <= range.1 <= len,
{
    if len == 0 {
        assert(i == 0);
        (0, 0)
    } else {
        proof {
            lemma_chunk_bounds(len as nat, size as nat, i as int);
            assert((i + 1) * size == i * size + size) by (nonlinear_arith);
        }
        let start: usize = i * size;
        let end: usize = if len - start > size {
            start + size
        } else {
            len
        };
        (start, end)
    }
}

/// Cuts a file into pieces of at most `ceiling` bytes, in order. A file that
/// fits in one piece keeps its name as the label; the pieces of a larger one
/// are labelled `name (part N/M)`.
pub fn split_file_at(filename: &str, data: &[u8], ceiling: usize) -> (chunks: Vec<FileChunk>)
    requires
        ceiling > 0,
    ensures
        chunk_views(chunks@) == file_chunks(filename@, data@, ceiling as nat),
        chunks@.len() == chunk_count(data@.len(), ceiling as nat),
        forall|i: int| 0 <= i < chunks@.len() ==> (#[trigger] chunks@[i]).data@.len() <= ceiling,
        joined_data(chunk_views(chunks@)) == data@,
        data@.len() <= ceiling ==> chunks@.len() == 1 && chunks@[0].label@ == filename@,
{
    proof {
        lemma_split_file(filename@, data@, ceiling as nat);
    }
    let count = count_chunks(data.len(), ceiling);
    let ghost all = file_chunks(filename@, data@, ceiling as nat);
    let mut chunks: Vec<FileChunk> = Vec::new();
    let mut i: usize = 0;
    while i < count
        invariant
            ceiling > 0,
            0 <= i <= count,
            count == chunk_count(data@.len(), ceiling as nat),
            all == file_chunks(filename@, data@, ceiling as nat),
            chunk_views(chunks@) =~= all.take(i as int),
        decreases count - i,
    {
        let (start, end) = chunk_range(data.len(), ceiling, i);
        let piece = FileChunk {
            label: part_label(filename, i, count),
            filename: String::from_str(filename),
            data: slice_to_vec(slice_subrange(data, start, end)),
        };
        proof {
            assert(piece@ == all[i as int]);
            assert(chunk_views(chunks@.push(piece)) =~= chunk_views(chunks@).push(piece@));
            assert(all.take(i + 1) =~= all.take(i as int).push(all[i as int]));
        }
        chunks.push(piece);
        i += 1;
    }
    assert(all.take(i as int) =~= all);
    assert forall|i: int| 0 <= i < chunks@.len() implies (#[trigger] chunks@[i]).data@.len()
        <= ceiling by {
        assert(chunks@[i]@ == chunk_views(chunks@)[i]);
    }
    assert(chunks@[0]@ == chunk_views(chunks@)[0]);
    chunks
}

/// Cuts a file into pieces that the platform takes as attachments.
pub fn split_file(filename: &str, data: &[u8]) -> (chunks: Vec<FileChunk>)
    ensures
        chunk_views(chunks@) == file_chunks(filename@, data@, ATTACHMENT_CEILING as nat),
{
    split_file_at(filename, data, ATTACHMENT_CEILING)
}

/// The bytes of the first `n` pieces are the first `n` chunks of the file.
proof fn lemma_joined_prefix(filename: Seq<char>, data: Seq<u8>, ceiling: nat, n: nat)
    requires
        ceiling > 0,
        n <= chunk_count(data.len(), ceiling),
    ensures
        joined_data(file_chunks(filename, data, ceiling).take(n as int)) == chunks_joined(
            data,
            ceiling,
            n,
        ),
    decreases n,
{
    let all = file_chunks(filename, data, ceiling);
    if n > 0 {
        lemma_joined_prefix(filename, data, ceiling, (n - 1) as nat);
        assert(all.take(n as int).drop_last() =~= all.take(n - 1));
        assert(all.take(n as int).last() == all[n - 1]);
    }
}

/// What splitting a file gives: as many pieces as the size divided by the
/// ceiling, rounded up (one piece for an empty file); no piece larger than
/// the ceiling; the pieces, put together in order, are the file; and a file
/// no larger than the ceiling is one piece under its own name.
pub proof fn lemma_split_file(filename: Seq<char>, data: Seq<u8>, ceiling: nat)
    requires
        ceiling > 0,
    ensures
        file_chunks(filename, data, ceiling).len() == chunk_count(data.len(), ceiling),
        data.len() > 0 ==> (file_chunks(filename, data, ceiling).len() - 1) * ceiling < data.len()
            <= file_chunks(filename, data, ceiling).len() * ceiling,
        forall|i: int|
            0 <= i < file_chunks(filename, data, ceiling).len() ==> (#[trigger] file_chunks(
                filename,
                data,
                ceiling,
            )[i]).data.len() <= ceiling,
        joined_data(file_chunks(filename, data, ceiling)) == data,
        data.len() <= ceiling ==> file_chunks(filename, data, ceiling).len() == 1 && file_chunks(
            filename,
            data,
            ceiling,
        )[0].label == filename,
{
    let all = file_chunks(filename, data, ceiling);
    let count = chunk_count(data.len(), ceiling);
    if data.len() > 0 {
        lemma_chunk_count(data.len(), ceiling);
    }
    assert forall|i: int| 0 <= i < all.len() implies (#[trigger] all[i]).data.len() <= ceiling by {
        lemma_chunk_len(data, ceiling, i);
    }
    lemma_joined_prefix(filename, data, ceiling, count);
    lemma_chunks_cover(data, ceiling);
    assert(all.take(count as int) =~= all);
}

/// The views of a run of embeds.
pub open spec fn embed_views(embeds: Seq<EmbedContent>) -> Seq<EmbedContentView> {
    embeds.map_values(|e: EmbedContent| e@)
}

/// Embed `k` of the embeds that `content` is shown as: its text fields from
/// `k * MAX_FIELDS` on, as many as one embed shows, under the colour and
/// author of `content`. The first embed also carries the title, the
/// description and the snapshot; the later ones leave them out.
pub open spec fn embed_unit(content: EmbedContentView, k: int) -> EmbedContentView {
    EmbedContentView {
        title: if k == 0 {
            content.title
        } else {
            Seq::empty()
        },
        description: if k == 0 {
            content.description
        } else {
            Seq::empty()
        },
        color: content.color,
        author: content.author,
        textfield: chunk(content.textfield, MAX_FIELDS as nat, k),
        snapshot: if k == 0 {
            content.snapshot
        } else {
            None
        },
    }
}

/// The embeds that `content` is shown as, in order.
pub open spec fn embed_units(content: EmbedContentView) -> Seq<EmbedContentView> {
    Seq::new(
        chunk_count(content.textfield.len(), MAX_FIELDS as nat),
        |k: int| embed_unit(content, k),
    )
}

/// The text fields of a run of embeds, one embed after the other.
pub open spec fn joined_fields(embeds: Seq<EmbedContentView>) -> Seq<TextFieldView>
    decreases embeds.len(),
{
    if embeds.len() == 0 {
        Seq::empty()
    } else {
        joined_fields(embeds.drop_last()) + embeds.last().textfield
    }
}

/// Copies of the text fields from `start` up to `end`.
fn copy_fields(items: &Vec<TextField>, start: usize, end: usize) -> (out: Vec<TextField>)
    requires
        start <= end <= items@.len(),
    ensures
        textfield_views(out@) == textfield_views(items@).subrange(start as int, end as int),
{
    let ghost views = textfield_views(items@);
    let mut out: Vec<TextField> = Vec::new();
    let mut i: usize = start;
    while i < end
        invariant
            start <= i <= end <= items@.len(),
            views == textfield_views(items@),
            textfield_views(out@) =~= views.subrange(start as int, i as int),
        decreases end - i,
    {
        let item = items[i].copy();
        proof {
            assert(textfield_views(out@.push(item)) =~= textfield_views(out@).push(item@));
            assert(views.subrange(start as int, i + 1) =~= views.subrange(
                start as int,
                i as int,
            ).push(views[i as int]));
        }
        out.push(item);
        i += 1;
    }
    out
}

/// Embed `k` of the embeds that `content` is shown as.
fn build_embed(content: &EmbedContent, k: usize) -> (unit: EmbedContent)
    requires
        k < chunk_count(content@.textfield.len(), MAX_FIELDS as nat),
    ensures
        unit@ == embed_unit(content@, k as int),
{
    let (start, end) = chunk_range(content.textfield.len(), MAX_FIELDS, k);
    let first = k == 0;
    EmbedContent {
        title: if first {
            content.title.clone()
        } else {
            String::new()
        },
        description: if first {
            content.description.clone()
        } else {
            String::new()
        },
        color: content.color,
        author: content.author.clone(),
        textfield: copy_fields(&content.textfield, start, end),
        snapshot: if first {
            match &content.snapshot {
                Some(file) => Some(file.copy()),
                None => None,
            }
        } else {
            None
        },
    }
}

/// Lays `content` out as one or more embeds, none with more text fields than
/// the platform shows. The text fields keep their order; the title, the
/// description and the snapshot go with the first embed.
pub fn build_embeds(content: &EmbedContent) -> (embeds: Vec<EmbedContent>)
    ensures
        embed_views(embeds@) == embed_units(content@),
        embeds@.len() >= 1,
        forall|k: int|
            0 <= k < embeds@.len() ==> (#[trigger] embeds@[k]).textfield@.len() <= MAX_FIELDS,
        joined_fields(embed_views(embeds@)) == content@.textfield,
{
    proof {
        lemma_build_embeds(content@);
    }
    let count = count_chunks(content.textfield.len(), MAX_FIELDS);
    let ghost all = embed_units(content@);
    let mut embeds: Vec<EmbedContent> = Vec::new();
    let mut k: usize = 0;
    while k < count
        invariant
            0 <= k <= count,
            count == chunk_count(content@.textfield.len(), MAX_FIELDS as nat),
            all == embed_units(content@),
            embed_views(embeds@) =~= all.take(k as int),
        decreases count - k,
    {
        let unit = build_embed(content, k);
        proof {
            assert(unit@ == all[k as int]);
            assert(embed_views(embeds@.push(unit)) =~= embed_views(embeds@).push(unit@));
            assert(all.take(k + 1) =~= all.take(k as int).push(all[k as int]));
        }
        embeds.push(unit);
        k += 1;
    }
    assert(all.take(k as int) =~= all);
    assert forall|k: int| 0 <= k < embeds@.len() implies (#[trigger] embeds@[k]).textfield@.len()
        <= MAX_FIELDS by {
        assert(embeds@[k]@ == embed_views(embeds@)[k]);
        assert(embeds@[k]@.textfield.len() == embeds@[k].textfield@.len());
    }
    embeds
}

/// The text fields of the first `n` embeds are the first `n` chunks of the
/// text fields of the content.
proof fn lemma_joined_fields_prefix(content: EmbedContentView, n: nat)
    requires
        n <= chunk_count(content.textfield.len(), MAX_FIELDS as nat),
    ensures
        joined_fields(embed_units(content).take(n as int)) == chunks_joined(
            content.textfield,
            MAX_FIELDS as nat,
            n,
        ),
    decreases n,
{
    let all = embed_units(content);
    if n > 0 {
        lemma_joined_fields_prefix(content, (n - 1) as nat);
        assert(all.take(n as int).drop_last() =~= all.take(n - 1));
        assert(all.take(n as int).last() == all[n - 1]);
    }
}

/// What laying out content gives: at least one embed; the first one with the
/// title, the description and the snapshot of the content; no embed with
/// more text fields than the platform shows; and the text fields of all the
/// embeds, in order, are those of the content.
pub proof fn lemma_build_embeds(content: EmbedContentView)
    ensures
        embed_units(content).len() >= 1,
        embed_units(content)[0].title == content.title,
        embed_units(content)[0].description == content.description,
        embed_units(content)[0].snapshot == content.snapshot,
        forall|k: int|
            0 <= k < embed_units(content).len() ==> (#[trigger] embed_units(
                content,
            )[k]).textfield.len() <= MAX_FIELDS,
        forall|k: int|
            1 <= k < embed_units(content).len() ==> (#[trigger] embed_units(
                content,
            )[k]).snapshot is None,
        joined_fields(embed_units(content)) == content.textfield,
{
    let all = embed_units(content);
    let count = chunk_count(content.textfield.len(), MAX_FIELDS as nat);
    if content.textfield.len() > 0 {
        lemma_chunk_count(content.textfield.len(), MAX_FIELDS as nat);
    }
    assert forall|k: int| 0 <= k < all.len() implies (#[trigger] all[k]).textfield.len()
        <= MAX_FIELDS by {
        lemma_chunk_len(content.textfield, MAX_FIELDS as nat, k);
    }
    lemma_joined_fields_prefix(content, count);
    lemma_chunks_cover(content.textfield, MAX_FIELDS as nat);
    assert(all.take(count as int) =~= all);
}

/// One thing to send to the platform: an embed, the mention line that goes
/// beside it as plain text, and, where the embed has a snapshot, the
/// reference by which the embed shows that attachment as its image.
#[derive(Clone, Debug, PartialEq, Eq)]
pub struct ContentUnit {
    pub mentions: String,
    pub embed: EmbedContent,
    pub image_url: Option<String>,
}

/// Mathematical content of a [`ContentUnit`].
pub struct ContentUnitView {
    pub mentions: Seq<char>,
    pub embed: EmbedContentView,
    pub image_url: Option<Seq<char>>,
}

impl View for ContentUnit {
    type V = ContentUnitView;

    open spec fn view(&self) -> ContentUnitView {
        ContentUnitView {
            mentions: self.mentions@,
            embed: self.embed@,
            image_url: match self.image_url {
                Some(url) => Some(url@),
                None => None,
            },
        }
    }
}

/// The views of a run of content units.
pub open spec fn unit_views(units: Seq<ContentUnit>) -> Seq<ContentUnitView> {
    units.map_values(|u: ContentUnit| u@)
}

/// The unit that sends `embed`.
pub open spec fn unit_of(embed: EmbedContentView) -> ContentUnitView {
    ContentUnitView {
        mentions: mention_line(mentions_of(embed.title)) + mention_line(
            mentions_of(embed.description),
        ),
        embed,
        image_url: match embed.snapshot {
            Some(file) => Some("attachment://"@ + file.filename),
            None => None,
        },
    }
}

/// The units that `content` is sent as, in order.
pub open spec fn content_units(content: EmbedContentView) -> Seq<ContentUnitView> {
    embed_units(content).map_values(|e: EmbedContentView| unit_of(e))
}

/// Wraps an embed for sending: works out its mention line and, if it has a
/// snapshot, the attachment reference of its image.
pub fn content_unit(embed: EmbedContent) -> (unit: ContentUnit)
    ensures
        unit@ == unit_of(embed@),
{
    let mentions = extract_mentions(&embed);
    let image_url = match &embed.snapshot {
        Some(file) => {
            let mut url = String::from_str("attachment://");
            url.append(file.filename.as_str());
            Some(url)
        },
        None => None,
    };
    ContentUnit { mentions, embed, image_url }
}

/// Turns content into the units to send, in order.
pub fn build_content_units(content: &EmbedContent) -> (units: Vec<ContentUnit>)
    ensures
        unit_views(units@) == content_units(content@),
        units@.len() >= 1,
{
    let count = count_chunks(content.textfield.len(), MAX_FIELDS);
    let ghost all = content_units(content@);
    let mut units: Vec<ContentUnit> = Vec::new();
    let mut k: usize = 0;
    while k < count
        invariant
            0 <= k <= count,
            count == chunk_count(content@.textfield.len(), MAX_FIELDS as nat),
            all == content_units(content@),
            unit_views(units@) =~= all.take(k as int),
        decreases count - k,
    {
        let unit = content_unit(build_embed(content, k));
        proof {
            assert(unit@ == all[k as int]);
            assert(unit_views(units@.push(unit)) =~= unit_views(units@).push(unit@));
            assert(all.take(k + 1) =~= all.take(k as int).push(all[k as int]));
        }
        units.push(unit);
        k += 1;
    }
    assert(all.take(k as int) =~= all);
    units
}

} // verus!
