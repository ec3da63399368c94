//! What holds of Hugging Face datasets, whatever they are called.

use vstd::prelude::*;

use super::huggingface::HuggingFaceSourceView;

verus! {

/// Whether a text ends in `.parquet`, with letters of either case.
pub open spec fn ends_in_parquet(text: Seq<char>) -> bool {
    let end = text.len() - 8;
    &&& end >= 0
    &&& text[end] == '.'
    &&& text[end + 1] == 'p' || text[end + 1] == 'P'
    &&& text[end + 2] == 'a' || text[end + 2] == 'A'
    &&& text[end + 3] == 'r' || text[end + 3] == 'R'
    &&& text[end + 4] == 'q' || text[end + 4] == 'Q'
    &&& text[end + 5] == 'u' || text[end + 5] == 'U'
    &&& text[end + 6] == 'e' || text[end + 6] == 'E'
    &&& text[end + 7] == 't' || text[end + 7] == 'T'
}

/// A listed entry is a shard exactly where it is a file whose path ends in
/// `.parquet`, in either case, whatever comes before.
pub proof fn law_shards_end_in_parquet(entry: (String, bool))
    ensures
        super::huggingface::is_shard(entry) <==> entry.1 && ends_in_parquet(entry.0@),
{
    reveal_strlit("parquet");
    let text = entry.0@;
    let wanted = "parquet"@;
    let dot = crate::text::last_position(text, '.');
    crate::text_laws::lemma_no_last_position(text, '.');
    if dot >= 0 {
        crate::text_laws::law_case_is_that_of_letters(text.skip(dot + 1), wanted);
        if text.skip(dot + 1).len() == 7 {
            let rest = text.skip(dot + 1);
            assert(rest[0] == text[dot + 1] && rest[1] == text[dot + 2] && rest[2] == text[dot
                + 3]);
            assert(rest[3] == text[dot + 4] && rest[4] == text[dot + 5] && rest[5] == text[dot
                + 6] && rest[6] == text[dot + 7]);
            if super::huggingface::is_shard(entry) {
                assert(crate::text_laws::same_letter(rest[0], wanted[0]));
                assert(crate::text_laws::same_letter(rest[1], wanted[1]));
                assert(crate::text_laws::same_letter(rest[2], wanted[2]));
                assert(crate::text_laws::same_letter(rest[3], wanted[3]));
                assert(crate::text_laws::same_letter(rest[4], wanted[4]));
                assert(crate::text_laws::same_letter(rest[5], wanted[5]));
                assert(crate::text_laws::same_letter(rest[6], wanted[6]));
            }
        }
    }
    if ends_in_parquet(text) {
        let end = text.len() - 8;
        let front = text.take(end);
        let rest = text.skip(end + 1);
        assert(text =~= front.push('.') + rest);
        assert(rest[0] == text[end + 1] && rest[1] == text[end + 2] && rest[2] == text[end + 3]);
        assert(rest[3] == text[end + 4] && rest[4] == text[end + 5] && rest[5] == text[end + 6]
            && rest[6] == text[end + 7]);
        assert(crate::text_laws::lacks(rest, '.'));
        crate::text_laws::lemma_last_position_behind(front, '.', rest);
        assert(dot == end);
        assert forall|i: int| 0 <= i < rest.len() implies crate::text_laws::same_letter(
            #[trigger] rest[i],
            wanted[i],
        ) by {}
    }
}

/// The shards of two listings together are those of the first and those of the
/// second, so none is lost and none is added.
pub proof fn law_shards_are_picked_one_by_one(
    left: Seq<(String, bool)>,
    right: Seq<(String, bool)>,
    entry: (String, bool),
)
    ensures
        super::huggingface::shards_in(left + right) == super::huggingface::shards_in(left)
            + super::huggingface::shards_in(right),
        super::huggingface::shards_in(seq![entry]) == if super::huggingface::is_shard(entry) {
            seq![entry.0]
        } else {
            Seq::empty()
        },
    decreases right.len(),
{
    let one = seq![entry];
    assert(one.drop_last() =~= Seq::empty());
    assert(super::huggingface::shards_in(Seq::empty()) =~= Seq::empty());
    assert(super::huggingface::shards_in(one) =~= if super::huggingface::is_shard(entry) {
        seq![entry.0]
    } else {
        Seq::empty()
    });
    if right.len() == 0 {
        assert(left + right =~= left);
        assert(super::huggingface::shards_in(left) + super::huggingface::shards_in(right)
            =~= super::huggingface::shards_in(left));
    } else {
        law_shards_are_picked_one_by_one(left, right.drop_last(), entry);
        assert((left + right).drop_last() =~= left + right.drop_last());
        assert(super::huggingface::shards_in(left + right) =~= super::huggingface::shards_in(left)
            + super::huggingface::shards_in(right));
    }
}

/// The shards of a split are below its configuration, and then below the split.
pub proof fn law_split_is_a_directory(source: HuggingFaceSourceView)
    ensures
        super::huggingface::split_prefix(source) == source.config.push('/')
            + source.split.push('/'),
{
    reveal_strlit("/");
    assert(super::huggingface::split_prefix(source) =~= source.config.push('/')
        + source.split.push('/'));
}

/// A source can be opened exactly where it names a dataset, a configuration and
/// a split, and asks for batches and reads of a positive number.
pub proof fn law_sources_are_complete(source: HuggingFaceSourceView)
    ensures
        super::huggingface::source_problem(source) is None <==> source.batch_size > 0
            && source.read_options.max_read_parallelism > 0 && source.dataset.len() > 0
            && source.config.len() > 0 && source.split.len() > 0,
{
}

}
