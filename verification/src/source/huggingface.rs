//! Hugging Face datasets as Parquet shards.

use vstd::prelude::*;

use super::SourceReadOptions;
use crate::error::{Error, Result};
use crate::error_struct::{at, copy_text};
use crate::order::sort_by_name;
use crate::text::has_extension;

verus! {

pub const DEFAULT_BATCH_SIZE: usize = 8192;

/// A split of a Hugging Face dataset.
#[derive(Debug)]
pub struct HuggingFaceSource {
    pub dataset: String,
    pub config: String,
    pub split: String,
    pub token: Option<String>,
    pub batch_size: usize,
    pub preserve_insertion_order: bool,
    pub read_options: SourceReadOptions,
}

/// A split of a dataset, as mathematical values.
pub struct HuggingFaceSourceView {
    pub dataset: Seq<char>,
    pub config: Seq<char>,
    pub split: Seq<char>,
    pub token: Option<Seq<char>>,
    pub batch_size: usize,
    pub preserve_insertion_order: bool,
    pub read_options: SourceReadOptions,
}

impl View for HuggingFaceSource {
    type V = HuggingFaceSourceView;

    open spec fn view(&self) -> HuggingFaceSourceView {
        HuggingFaceSourceView {
            dataset: self.dataset@,
            config: self.config@,
            split: self.split@,
            token: crate::error_struct::optional_text(self.token),
            batch_size: self.batch_size,
            preserve_insertion_order: self.preserve_insertion_order,
            read_options: self.read_options,
        }
    }
}

/// The settings of a connection to a dataset repository.
#[derive(Debug)]
pub struct HuggingFaceSettings {
    pub repo_type: String,
    pub repo_id: String,
    pub revision: String,
    pub download_mode: String,
    pub token: Option<String>,
}

/// Why a source cannot be opened, if it cannot.
pub open spec fn source_problem(source: HuggingFaceSourceView) -> Option<Seq<char>> {
    if source.batch_size == 0 {
        Some("batch_size must be positive"@)
    } else if source.read_options.max_read_parallelism == 0 {
        Some("max_read_parallelism must be positive"@)
    } else if source.dataset.len() == 0 || source.config.len() == 0 || source.split.len() == 0 {
        Some("dataset, config, and split must not be empty"@)
    } else {
        None
    }
}

/// The directory of a split.
pub open spec fn split_prefix(source: HuggingFaceSourceView) -> Seq<char> {
    source.config + "/"@ + source.split + "/"@
}

/// What a source is called in errors.
pub open spec fn source_context(source: HuggingFaceSourceView) -> Seq<char> {
    "reading Hugging Face dataset '"@ + source.dataset + "' config '"@ + source.config
        + "' split '"@ + source.split + "'"@
}

impl HuggingFaceSource {
    pub fn new(dataset: String) -> (source: Self)
        ensures
            source@ == (HuggingFaceSourceView {
                dataset: dataset@,
                config: "default"@,
                split: "train"@,
                token: None,
                batch_size: DEFAULT_BATCH_SIZE,
                preserve_insertion_order: true,
                read_options: SourceReadOptions {
                    max_read_parallelism: super::DEFAULT_MAX_READ_PARALLELISM,
                },
            }),
    {
        HuggingFaceSource {
            dataset,
            config: "default".to_owned(),
            split: "train".to_owned(),
            token: None,
            batch_size: DEFAULT_BATCH_SIZE,
            preserve_insertion_order: true,
            read_options: SourceReadOptions::default(),
        }
    }

    pub fn with_config(self, config: String) -> (source: Self)
        ensures
            source@ == (HuggingFaceSourceView { config: config@, ..self@ }),
    {
        let mut source = self;
        source.config = config;
        source
    }

    pub fn with_split(self, split: String) -> (source: Self)
        ensures
            source@ == (HuggingFaceSourceView { split: split@, ..self@ }),
    {
        let mut source = self;
        source.split = split;
        source
    }

    pub fn with_token(self, token: String) -> (source: Self)
        ensures
            source@ == (HuggingFaceSourceView { token: Some(token@), ..self@ }),
    {
        let mut source = self;
        source.token = Some(token);
        source
    }

    pub fn with_batch_size(self, batch_size: usize) -> (source: Self)
        ensures
            source@ == (HuggingFaceSourceView { batch_size, ..self@ }),
    {
        let mut source = self;
        source.batch_size = batch_size;
        source
    }

    pub fn with_preserve_insertion_order(self, preserve: bool) -> (source: Self)
        ensures
            source@ == (HuggingFaceSourceView { preserve_insertion_order: preserve, ..self@ }),
    {
        let mut source = self;
        source.preserve_insertion_order = preserve;
        source
    }

    pub fn with_max_read_parallelism(self, max_read_parallelism: usize) -> (source: Self)
        ensures
            source@ == (HuggingFaceSourceView {
                read_options: SourceReadOptions { max_read_parallelism },
                ..self@
            }),
    {
        let mut source = self;
        source.read_options.max_read_parallelism = max_read_parallelism;
        source
    }

    /// The connection to the Parquet files that are published for the dataset.
    pub fn settings(&self) -> (settings: HuggingFaceSettings)
        ensures
            settings.repo_type@ == "dataset"@,
            settings.repo_id@ == self@.dataset,
            settings.revision@ == "refs/convert/parquet"@,
            settings.download_mode@ == "http"@,
            crate::error_struct::optional_text(settings.token) == self@.token,
    {
        HuggingFaceSettings {
            repo_type: "dataset".to_owned(),
            repo_id: self.dataset.clone(),
            revision: "refs/convert/parquet".to_owned(),
            download_mode: "http".to_owned(),
            token: copy_text(&self.token),
        }
    }

    /// The directory of the split.
    pub fn prefix(&self) -> (prefix: Result<String>)
        ensures
            match prefix {
                Ok(prefix) => {
                    &&& self@.dataset.len() > 0
                    &&& self@.config.len() > 0
                    &&& self@.split.len() > 0
                    &&& prefix@ == split_prefix(self@)
                },
                Err(error) => {
                    &&& self@.dataset.len() == 0 || self@.config.len() == 0 || self@.split.len()
                        == 0
                    &&& error@ == crate::error::internal_error(
                        "dataset, config, and split must not be empty"@,
                    )
                },
            },
    {
        if self.dataset.as_str().unicode_len() == 0 || self.config.as_str().unicode_len() == 0
            || self.split.as_str().unicode_len() == 0 {
            return Err(
                Error::message(
                    "dataset, config, and split must not be empty".to_owned(),
                    at("src/source/huggingface.rs", 211, 17),
                ),
            );
        }
        let mut prefix = self.config.clone();
        prefix.append("/");
        prefix.append(self.split.as_str());
        prefix.append("/");
        Ok(prefix)
    }

    /// Checks the source, and gives the directory that its shards are listed in.
    pub fn plan(&self) -> (prefix: Result<String>)
        ensures
            match prefix {
                Ok(prefix) => source_problem(self@) is None && prefix@ == split_prefix(self@),
                Err(error) => source_problem(self@) matches Some(message) && error@
                    == crate::error::internal_error(message),
            },
    {
        if self.batch_size == 0 {
            return Err(Error::message(
                "batch_size must be positive".to_owned(),
                at("src/source/huggingface.rs", 234, 24),
            ));
        }
        match self.read_options.validate() {
            Ok(_) => {},
            Err(error) => {
                return Err(error);
            },
        }
        self.prefix()
    }

    /// What the source is called in the errors of reading it.
    pub fn context(&self) -> (context: String)
        ensures
            context@ == source_context(self@),
    {
        let mut context = "reading Hugging Face dataset '".to_owned();
        context.append(self.dataset.as_str());
        context.append("' config '");
        context.append(self.config.as_str());
        context.append("' split '");
        context.append(self.split.as_str());
        context.append("'");
        context
    }
}

/// Whether an entry of a listing is a Parquet shard: a file with that extension,
/// in any case.
pub open spec fn is_shard(entry: (String, bool)) -> bool {
    entry.1 && (crate::text::extension_of(entry.0@) matches Some(extension)
        && crate::text::same_ignoring_case(extension, "parquet"@))
}

/// The paths of the shards in a listing, in its order.
pub open spec fn shards_in(entries: Seq<(String, bool)>) -> Seq<String>
    decreases entries.len(),
{
    if entries.len() == 0 {
        Seq::empty()
    } else {
        let shards = shards_in(entries.drop_last());
        if is_shard(entries.last()) {
            shards.push(entries.last().0)
        } else {
            shards
        }
    }
}

/// The paths of the Parquet shards in a listing of paths and whether they are
/// files, sorted.
pub fn parquet_paths(entries: Vec<(String, bool)>) -> (paths: Vec<String>)
    ensures
        crate::order::sorted_by_name(paths@),
        paths@.to_multiset() == shards_in(entries@).to_multiset(),
{
    let mut shards: Vec<String> = Vec::new();
    let mut i: usize = 0;
    assert(entries@.take(0) =~= Seq::empty());
    while i < entries.len()
        invariant
            i <= entries@.len(),
            shards@ == shards_in(entries@.take(i as int)),
        decreases entries@.len() - i,
    {
        assert(entries@.take(i + 1).drop_last() == entries@.take(i as int));
        if entries[i].1 && has_extension(entries[i].0.as_str(), "parquet") {
            shards.push(entries[i].0.clone());
        }
        i += 1;
    }
    assert(entries@.take(i as int) == entries@);
    sort_by_name(shards)
}

/// The sorted paths of the shards in a listing. A listing without shards is
/// refused.
pub fn shard_paths(entries: Vec<(String, bool)>) -> (paths: Result<Vec<String>>)
    ensures
        match paths {
            Ok(paths) => {
                &&& shards_in(entries@).len() > 0
                &&& crate::order::sorted_by_name(paths@)
                &&& paths@.to_multiset() == shards_in(entries@).to_multiset()
            },
            Err(error) => shards_in(entries@).len() == 0 && error@
                == crate::error::internal_error("source contains no Parquet shards"@),
        },
{
    let paths = parquet_paths(entries);
    proof {
        paths@.to_multiset_ensures();
        shards_in(entries@).to_multiset_ensures();
    }
    if paths.len() == 0 {
        return Err(Error::message(
            "source contains no Parquet shards".to_owned(),
            at("src/source/huggingface.rs", 333, 20),
        ));
    }
    Ok(paths)
}

}
