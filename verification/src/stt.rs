//! Speech to text: the models on offer, what of them is on disk, and which one is
//! loaded.

use crate::config::Settings;
use crate::paths;
use crate::text;
use vstd::prelude::*;
use vstd::string::*;

verus! {

// ============================ the catalog ============================

/// A transcription model on offer.
#[derive(Debug, Clone)]
pub struct ModelSpec {
    pub id: &'static str,
    pub name: &'static str,
    pub description: &'static str,
    pub languages: &'static str,
    /// About how much is downloaded, in megabytes.
    pub size_mb: u64,
    /// Where each file comes from, and its name in the model's directory.
    pub files: Vec<(&'static str, &'static str)>,
}

pub struct SpecView {
    pub id: Seq<char>,
    pub name: Seq<char>,
    pub description: Seq<char>,
    pub languages: Seq<char>,
    pub size_mb: u64,
    pub files: Seq<(Seq<char>, Seq<char>)>,
}

/// The addresses and names of files.
pub open spec fn file_views(files: Seq<(&'static str, &'static str)>) -> Seq<
    (Seq<char>, Seq<char>),
> {
    files.map_values(|f: (&'static str, &'static str)| (f.0@, f.1@))
}

impl View for ModelSpec {
    type V = SpecView;

    open spec fn view(&self) -> SpecView {
        SpecView {
            id: self.id@,
            name: self.name@,
            description: self.description@,
            languages: self.languages@,
            size_mb: self.size_mb,
            files: file_views(self.files@),
        }
    }
}

/// The model of someone who has not picked one.
pub const DEFAULT_MODEL_ID: &'static str = "parakeet-v2";

pub open spec fn parakeet_file_list() -> Seq<(Seq<char>, Seq<char>)> {
    seq![
        (
            "https://huggingface.co/istupakov/parakeet-tdt-0.6b-v2-onnx/resolve/main/encoder-model.int8.onnx"@,
            "encoder-model.int8.onnx"@,
        ),
        (
            "https://huggingface.co/istupakov/parakeet-tdt-0.6b-v2-onnx/resolve/main/decoder_joint-model.int8.onnx"@,
            "decoder_joint-model.int8.onnx"@,
        ),
        (
            "https://huggingface.co/istupakov/parakeet-tdt-0.6b-v2-onnx/resolve/main/nemo128.onnx"@,
            "nemo128.onnx"@,
        ),
        (
            "https://huggingface.co/istupakov/parakeet-tdt-0.6b-v2-onnx/resolve/main/vocab.txt"@,
            "vocab.txt"@,
        ),
    ]
}

pub open spec fn whisper_file_list() -> Seq<(Seq<char>, Seq<char>)> {
    seq![
        (
            "https://huggingface.co/ggerganov/whisper.cpp/resolve/main/ggml-base.bin"@,
            "ggml-base.bin"@,
        ),
    ]
}

/// Parakeet: English only, and the best at it.
pub open spec fn parakeet() -> SpecView {
    SpecView {
        id: "parakeet-v2"@,
        name: "Parakeet V2"@,
        description: "Fast and accurate. English only."@,
        languages: "English"@,
        size_mb: 700,
        files: parakeet_file_list(),
    }
}

/// Whisper: smaller, and multilingual.
pub open spec fn whisper() -> SpecView {
    SpecView {
        id: "whisper-base"@,
        name: "Whisper Base"@,
        description: "Multilingual. Great for non-English speakers."@,
        languages: "99 languages"@,
        size_mb: 141,
        files: whisper_file_list(),
    }
}

/// The models on offer, in the order in which they are shown.
pub open spec fn catalog() -> Seq<SpecView> {
    seq![parakeet(), whisper()]
}

/// Parakeet's files.
pub fn parakeet_files() -> (r: Vec<(&'static str, &'static str)>)
    ensures
        file_views(r@) == parakeet_file_list(),
{
    let mut files: Vec<(&'static str, &'static str)> = Vec::new();
    files.push(
        (
            "https://huggingface.co/istupakov/parakeet-tdt-0.6b-v2-onnx/resolve/main/encoder-model.int8.onnx",
            "encoder-model.int8.onnx",
        ),
    );
    files.push(
        (
            "https://huggingface.co/istupakov/parakeet-tdt-0.6b-v2-onnx/resolve/main/decoder_joint-model.int8.onnx",
            "decoder_joint-model.int8.onnx",
        ),
    );
    files.push(
        (
            "https://huggingface.co/istupakov/parakeet-tdt-0.6b-v2-onnx/resolve/main/nemo128.onnx",
            "nemo128.onnx",
        ),
    );
    files.push(
        (
            "https://huggingface.co/istupakov/parakeet-tdt-0.6b-v2-onnx/resolve/main/vocab.txt",
            "vocab.txt",
        ),
    );
    assert(file_views(files@) =~= parakeet_file_list());
    files
}

/// Whisper's files.
pub fn whisper_files() -> (r: Vec<(&'static str, &'static str)>)
    ensures
        file_views(r@) == whisper_file_list(),
{
    let mut files: Vec<(&'static str, &'static str)> = Vec::new();
    files.push(
        (
            "https://huggingface.co/ggerganov/whisper.cpp/resolve/main/ggml-base.bin",
            "ggml-base.bin",
        ),
    );
    assert(file_views(files@) =~= whisper_file_list());
    files
}

fn parakeet_spec() -> (r: ModelSpec)
    ensures
        r@ == parakeet(),
{
    ModelSpec {
        id: "parakeet-v2",
        name: "Parakeet V2",
        description: "Fast and accurate. English only.",
        languages: "English",
        size_mb: 700,
        files: parakeet_files(),
    }
}

fn whisper_spec() -> (r: ModelSpec)
    ensures
        r@ == whisper(),
{
    ModelSpec {
        id: "whisper-base",
        name: "Whisper Base",
        description: "Multilingual. Great for non-English speakers.",
        languages: "99 languages",
        size_mb: 141,
        files: whisper_files(),
    }
}

/// The models on offer, in the order in which they are shown.
pub fn models() -> (r: Vec<ModelSpec>)
    ensures
        r@.map_values(|m: ModelSpec| m@) == catalog(),
{
    let mut all: Vec<ModelSpec> = Vec::new();
    all.push(parakeet_spec());
    all.push(whisper_spec());
    assert(all@.map_values(|m: ModelSpec| m@) =~= catalog());
    all
}

/// Is there a model of that name?
pub open spec fn known(id: Seq<char>) -> bool {
    exists|i: int| 0 <= i < catalog().len() && (#[trigger] catalog()[i]).id == id
}

/// The model of that name, or else the default.
pub open spec fn chosen(id: Seq<char>) -> SpecView {
    if id == whisper().id {
        whisper()
    } else {
        parakeet()
    }
}

/// Look up a model. A name that is not known, such as one left in old settings, means
/// the default.
pub fn spec(id: &str) -> (r: ModelSpec)
    ensures
        r@ == chosen(id@),
{
    if text::same(id, "whisper-base") {
        whisper_spec()
    } else {
        parakeet_spec()
    }
}

fn is_known(id: &str) -> (r: bool)
    ensures
        r == known(id@),
{
    assert(catalog()[0].id == "parakeet-v2"@);
    assert(catalog()[1].id == "whisper-base"@);
    text::same(id, "parakeet-v2") || text::same(id, "whisper-base")
}

/// The names of the models differ, the first is the default, and looking one up by
/// its name finds it.
pub proof fn law_models_are_found(i: int)
    requires
        0 <= i < catalog().len(),
    ensures
        catalog()[0].id == DEFAULT_MODEL_ID@,
        chosen(catalog()[i].id) == catalog()[i],
        forall|j: int|
            0 <= j < catalog().len() && (#[trigger] catalog()[j]).id == catalog()[i].id ==> j == i,
{
    reveal_strlit("parakeet-v2");
    reveal_strlit("whisper-base");
    assert("parakeet-v2"@.len() != "whisper-base"@.len());
}

/// A name that is not known means the default model.
pub proof fn law_unknown_means_default(id: Seq<char>)
    requires
        !known(id),
    ensures
        chosen(id).id == DEFAULT_MODEL_ID@,
{
    assert(catalog()[1].id == whisper().id);
}

/// No two files of the models have the same name.
pub proof fn law_file_names_differ(i: int)
    requires
        0 <= i < parakeet_file_list().len(),
    ensures
        parakeet_file_list()[i].1 != whisper_file_list()[0].1,
{
    reveal_strlit("encoder-model.int8.onnx");
    reveal_strlit("decoder_joint-model.int8.onnx");
    reveal_strlit("nemo128.onnx");
    reveal_strlit("vocab.txt");
    reveal_strlit("ggml-base.bin");
    let names = parakeet_file_list();
    assert(names[0].1.len() == 23 && names[1].1.len() == 29 && names[2].1.len() == 12
        && names[3].1.len() == 9 && whisper_file_list()[0].1.len() == 13);
}

// ============================ on disk ============================

/// The directory of a model's files.
pub open spec fn dir_of(app_data: Seq<char>, id: Seq<char>) -> Seq<char> {
    paths::below(paths::below(app_data, "models"@), id)
}

/// Where a model's files lie: `models/<id>` below the directory for data.
pub fn model_dir(app_data: &str, model_id: &str) -> (r: String)
    ensures
        r@ == dir_of(app_data@, model_id@),
{
    let models = paths::join(app_data, "models");
    paths::join(models.as_str(), model_id)
}

/// The path of one of a model's files.
pub open spec fn file_path(app_data: Seq<char>, id: Seq<char>, i: int) -> Seq<char> {
    paths::below(dir_of(app_data, id), chosen(id).files[i].1)
}

/// The directory that Parakeet's files once lay in.
pub open spec fn legacy_dir(app_data: Seq<char>) -> Seq<char> {
    paths::below(paths::below(app_data, "models"@), "parakeet-tdt-0.6b-v2"@)
}

/// The directory to rename, and its new name, given which of them are there.
pub open spec fn migration(app_data: Seq<char>, old_is_dir: bool, new_is_dir: bool) -> Option<
    (Seq<char>, Seq<char>),
> {
    if old_is_dir && !new_is_dir {
        Some((legacy_dir(app_data), dir_of(app_data, "parakeet-v2"@)))
    } else {
        None
    }
}

/// The directory to rename, and its new name, where Parakeet's files lie in their old
/// directory and the new one is not there.
pub fn migrate_legacy_dirs(app_data: &str, old_is_dir: bool, new_is_dir: bool) -> (r: Option<
    (String, String),
>)
    ensures
        text::opt_pair_view(r) == migration(app_data@, old_is_dir, new_is_dir),
{
    if old_is_dir && !new_is_dir {
        let models = paths::join(app_data, "models");
        Some(
            (
                paths::join(models.as_str(), "parakeet-tdt-0.6b-v2"),
                model_dir(app_data, "parakeet-v2"),
            ),
        )
    } else {
        None
    }
}

/// Once a migration was made, or where there is nothing to migrate, none is due; and
/// the new directory is the default model's.
pub proof fn law_migration_is_made_once(app_data: Seq<char>, new_is_dir: bool)
    ensures
        migration(app_data, false, true) is None,
        migration(app_data, false, new_is_dir) is None,
        migration(app_data, true, false) matches Some((_, to)) && to == dir_of(
            app_data,
            DEFAULT_MODEL_ID@,
        ),
{
}

/// The paths of a model's files.
pub fn model_files(app_data: &str, model_id: &str) -> (r: Vec<String>)
    ensures
        r@.len() == chosen(model_id@).files.len(),
        forall|i: int|
            0 <= i < r@.len() ==> (#[trigger] r@[i])@ == file_path(app_data@, model_id@, i),
{
    let s = spec(model_id);
    let dir = model_dir(app_data, model_id);
    let mut out: Vec<String> = Vec::new();
    for i in 0..s.files.len()
        invariant
            s@ == chosen(model_id@),
            dir@ == dir_of(app_data@, model_id@),
            out@.len() == i,
            forall|j: int| 0 <= j < i ==> (#[trigger] out@[j])@ == file_path(app_data@, model_id@, j),
    {
        assert(s@.files[i as int].1 == s.files@[i as int].1@);
        out.push(paths::join(dir.as_str(), s.files[i].1));
    }
    out
}

/// Is every file of the model among those that exist?
pub open spec fn complete(
    app_data: Seq<char>,
    id: Seq<char>,
    existing: Seq<Seq<char>>,
) -> bool {
    forall|i: int|
        0 <= i < chosen(id).files.len() ==> existing.contains(#[trigger] file_path(app_data, id, i))
}

/// Are all of the model's files there? `existing` holds the paths that exist.
pub fn model_ready(app_data: &str, model_id: &str, existing: &Vec<String>) -> (r: bool)
    ensures
        r == complete(app_data@, model_id@, text::views(existing@)),
{
    let files = model_files(app_data, model_id);
    for i in 0..files.len()
        invariant
            files@.len() == chosen(model_id@).files.len(),
            forall|j: int|
                0 <= j < files@.len() ==> (#[trigger] files@[j])@ == file_path(
                    app_data@,
                    model_id@,
                    j,
                ),
            forall|j: int|
                0 <= j < i ==> text::views(existing@).contains(
                    #[trigger] file_path(app_data@, model_id@, j),
                ),
    {
        assert(files@[i as int]@ == file_path(app_data@, model_id@, i as int));
        if !text::among(existing, files[i].as_str()) {
            return false;
        }
    }
    true
}

/// One file of a model's download.
#[derive(Debug)]
pub struct Download {
    pub url: String,
    /// Where the file goes.
    pub dest: String,
    /// Where it is written until it is whole.
    pub temp: String,
    pub name: String,
    /// How many files are done once this one is, of how many.
    pub done: usize,
    pub total: usize,
    /// It is there already.
    pub present: bool,
}

/// Is this the `i`th file of the model's download?
pub open spec fn is_download(
    d: Download,
    app_data: Seq<char>,
    id: Seq<char>,
    existing: Seq<Seq<char>>,
    i: int,
) -> bool {
    &&& d.url@ == chosen(id).files[i].0
    &&& d.name@ == chosen(id).files[i].1
    &&& d.dest@ == file_path(app_data, id, i)
    &&& d.temp@ == paths::below(dir_of(app_data, id), chosen(id).files[i].1 + ".part"@)
    &&& d.done == i + 1
    &&& d.total == chosen(id).files.len()
    &&& d.present == existing.contains(d.dest@)
}

/// The files of a model, in the order in which they are downloaded; those that are
/// there already are not fetched again.
pub fn download_model(app_data: &str, model_id: &str, existing: &Vec<String>) -> (r: Vec<Download>)
    ensures
        r@.len() == chosen(model_id@).files.len(),
        forall|i: int|
            0 <= i < r@.len() ==> is_download(
                #[trigger] r@[i],
                app_data@,
                model_id@,
                text::views(existing@),
                i,
            ),
{
    let s = spec(model_id);
    let dir = model_dir(app_data, model_id);
    let total = s.files.len();
    let mut out: Vec<Download> = Vec::new();
    for i in 0..s.files.len()
        invariant
            s@ == chosen(model_id@),
            dir@ == dir_of(app_data@, model_id@),
            total == s.files@.len(),
            out@.len() == i,
            forall|j: int|
                0 <= j < i ==> is_download(
                    #[trigger] out@[j],
                    app_data@,
                    model_id@,
                    text::views(existing@),
                    j,
                ),
    {
        assert(s@.files[i as int] == (s.files@[i as int].0@, s.files@[i as int].1@));
        let (url, name) = s.files[i];
        let dest = paths::join(dir.as_str(), name);
        let part = text::joined(name, ".part");
        let present = text::among(existing, dest.as_str());
        out.push(
            Download {
                url: url.to_owned(),
                temp: paths::join(dir.as_str(), part.as_str()),
                dest,
                name: name.to_owned(),
                done: i + 1,
                total,
                present,
            },
        );
    }
    out
}

/// What is told of a file that could not be fetched.
pub fn download_error(name: &str, e: &str) -> (r: String)
    ensures
        r@ == "download "@ + name@ + ": "@ + e@,
{
    let mut s = "download ".to_owned();
    s.append(name);
    s.append(": ");
    s.append(e);
    s
}

/// What is reported once a file is done: how many files are, of how many; or why it could
/// not be fetched. A file that was there already cannot fail.
pub open spec fn done_with(d: Download, fetched: Result<(), Seq<char>>) -> Result<
    (usize, usize),
    Seq<char>,
> {
    match fetched {
        Err(e) => if d.present {
            Ok((d.done, d.total))
        } else {
            Err(e)
        },
        Ok(_) => Ok((d.done, d.total)),
    }
}

/// The view of how fetching a file ended.
pub open spec fn fetch_view<T>(r: Result<T, String>) -> Result<T, Seq<char>> {
    match r {
        Ok(x) => Ok(x),
        Err(e) => Err(e@),
    }
}

/// What is reported once a file is done, or why it could not be fetched.
pub fn file_done(d: &Download, fetched: Result<(), String>) -> (r: Result<(usize, usize), String>)
    ensures
        fetch_view(r) == done_with(*d, fetch_view(fetched)),
{
    match fetched {
        Err(e) => if d.present {
            Ok((d.done, d.total))
        } else {
            Err(e)
        },
        Ok(_) => Ok((d.done, d.total)),
    }
}

/// What is reported of the first `n` files of a download, in order, when fetching them
/// ends as `fetched` says: nothing after the first that fails.
pub open spec fn progress(
    downloads: Seq<Download>,
    fetched: Seq<Result<(), Seq<char>>>,
    n: int,
) -> (Seq<(usize, usize)>, bool)
    decreases n,
{
    if n <= 0 {
        (Seq::empty(), true)
    } else {
        let (before, going) = progress(downloads, fetched, n - 1);
        match done_with(downloads[n - 1], fetched[n - 1]) {
            Ok(report) => if going {
                (before.push(report), true)
            } else {
                (before, false)
            },
            Err(_) => (before, false),
        }
    }
}

/// The reports of a download count up from one, to the number of files where every file
/// is done; a failure leaves a proper beginning of them.
pub proof fn law_progress_counts_up(
    app_data: Seq<char>,
    id: Seq<char>,
    existing: Seq<Seq<char>>,
    downloads: Seq<Download>,
    fetched: Seq<Result<(), Seq<char>>>,
    n: int,
)
    requires
        0 <= n <= downloads.len(),
        downloads.len() == chosen(id).files.len(),
        forall|i: int|
            0 <= i < downloads.len() ==> is_download(
                #[trigger] downloads[i],
                app_data,
                id,
                existing,
                i,
            ),
    ensures
        ({
            let (reports, going) = progress(downloads, fetched, n);
            &&& going ==> reports.len() == n
            &&& !going ==> reports.len() < n
            &&& going <==> (forall|i: int|
                0 <= i < n ==> done_with(#[trigger] downloads[i], fetched[i]) is Ok)
            &&& forall|i: int|
                0 <= i < reports.len() ==> (#[trigger] reports[i]).0 == i + 1 && reports[i].1
                    == downloads.len()
        }),
    decreases n,
{
    if n > 0 {
        law_progress_counts_up(app_data, id, existing, downloads, fetched, n - 1);
        assert(is_download(downloads[n - 1], app_data, id, existing, n - 1));
        let (before, going) = progress(downloads, fetched, n - 1);
        if !going {
            let i = choose|i: int|
                0 <= i < n - 1 && done_with(#[trigger] downloads[i], fetched[i]) is Err;
            assert(done_with(downloads[i], fetched[i]) is Err);
        }
    }
}

proof fn lemma_below_ends(base: Seq<char>, part: Seq<char>)
    requires
        part.len() >= 2,
    ensures
        paths::below(base, part).len() >= 2,
        paths::below(base, part).last() == part.last(),
        paths::below(base, part)[paths::below(base, part).len() - 2] == part[part.len() - 2],
{
}

/// A file that is not yet whole never lies where a whole one is looked for: no temporary
/// path is the path of any file of any model.
pub proof fn law_parts_are_not_files(
    app_data: Seq<char>,
    id: Seq<char>,
    existing: Seq<Seq<char>>,
    d: Download,
    i: int,
    other: Seq<char>,
    j: int,
)
    requires
        0 <= i < chosen(id).files.len(),
        is_download(d, app_data, id, existing, i),
        0 <= j < chosen(other).files.len(),
    ensures
        d.temp@ != file_path(app_data, other, j),
{
    reveal_strlit(".part");
    reveal_strlit("encoder-model.int8.onnx");
    reveal_strlit("decoder_joint-model.int8.onnx");
    reveal_strlit("nemo128.onnx");
    reveal_strlit("vocab.txt");
    reveal_strlit("ggml-base.bin");
    let part = chosen(id).files[i].1 + ".part"@;
    let name = chosen(other).files[j].1;
    assert(name == "encoder-model.int8.onnx"@ || name == "decoder_joint-model.int8.onnx"@ || name
        == "nemo128.onnx"@ || name == "vocab.txt"@ || name == "ggml-base.bin"@);
    assert(part[part.len() - 2] == 'r' && part.last() == 't');
    assert(name[name.len() - 2] != 'r' || name.last() != 't');
    lemma_below_ends(dir_of(app_data, id), part);
    lemma_below_ends(dir_of(app_data, other), name);
}

/// Once every file of a download is where it goes, the model is ready; and a model
/// that is ready has nothing left to fetch.
pub proof fn law_downloads_make_ready(
    app_data: Seq<char>,
    id: Seq<char>,
    existing: Seq<Seq<char>>,
    downloads: Seq<Download>,
)
    requires
        downloads.len() == chosen(id).files.len(),
        forall|i: int|
            0 <= i < downloads.len() ==> is_download(
                #[trigger] downloads[i],
                app_data,
                id,
                existing,
                i,
            ),
    ensures
        complete(app_data, id, existing) <==> (forall|i: int|
            0 <= i < downloads.len() ==> (#[trigger] downloads[i]).present),
        forall|later: Seq<Seq<char>>|
            (forall|i: int|
                0 <= i < downloads.len() ==> later.contains((#[trigger] downloads[i]).dest@))
                ==> #[trigger] complete(app_data, id, later),
{
    if complete(app_data, id, existing) {
        assert forall|i: int| 0 <= i < downloads.len() implies (#[trigger] downloads[i]).present by {
            assert(existing.contains(file_path(app_data, id, i)));
        }
    }
    if forall|i: int| 0 <= i < downloads.len() ==> (#[trigger] downloads[i]).present {
        assert forall|i: int| 0 <= i < chosen(id).files.len() implies existing.contains(
            #[trigger] file_path(app_data, id, i),
        ) by {
            assert(downloads[i].present);
        }
    }
    assert forall|later: Seq<Seq<char>>|
        (forall|i: int|
            0 <= i < downloads.len() ==> later.contains(
                (#[trigger] downloads[i]).dest@,
            )) implies #[trigger] complete(app_data, id, later) by {
        assert forall|i: int| 0 <= i < chosen(id).files.len() implies later.contains(
            #[trigger] file_path(app_data, id, i),
        ) by {
            assert(later.contains(downloads[i].dest@));
        }
    }
}

/// The directory to remove for a model.
pub open spec fn removal(app_data: Seq<char>, id: Seq<char>, exists: bool) -> Option<Seq<char>> {
    if exists {
        Some(dir_of(app_data, id))
    } else {
        None
    }
}

/// The directory to remove for a model, where it is there.
pub fn delete_model(app_data: &str, model_id: &str, exists: bool) -> (r: Option<String>)
    ensures
        text::opt_view(r) == removal(app_data@, model_id@, exists),
{
    if exists {
        Some(model_dir(app_data, model_id))
    } else {
        None
    }
}

// ============================ the loaded model ============================

/// What a model is loaded with.
#[derive(Debug)]
pub enum Backend {
    /// Whisper, from this file.
    Whisper(String),
    /// Parakeet, from this directory.
    Parakeet(String),
}

pub enum BackendView {
    Whisper(Seq<char>),
    Parakeet(Seq<char>),
}

impl View for Backend {
    type V = BackendView;

    open spec fn view(&self) -> BackendView {
        match *self {
            Backend::Whisper(p) => BackendView::Whisper(p@),
            Backend::Parakeet(d) => BackendView::Parakeet(d@),
        }
    }
}

/// What the model of that name in that directory is loaded with.
pub open spec fn backend_of(id: Seq<char>, dir: Seq<char>) -> BackendView {
    if id == "whisper-base"@ {
        BackendView::Whisper(paths::below(dir, "ggml-base.bin"@))
    } else {
        BackendView::Parakeet(dir)
    }
}

/// How to load a model from its files. A name that is not known means Parakeet.
pub fn load_model(model_id: &str, dir: &str) -> (r: Backend)
    ensures
        r@ == backend_of(model_id@, dir@),
{
    if text::same(model_id, "whisper-base") {
        Backend::Whisper(paths::join(dir, "ggml-base.bin"))
    } else {
        Backend::Parakeet(dir.to_owned())
    }
}

/// A model is loaded with the backend that its files are for, whatever its name.
pub proof fn law_backend_fits_files(app_data: Seq<char>, id: Seq<char>)
    ensures
        match backend_of(id, dir_of(app_data, id)) {
            BackendView::Whisper(path) => chosen(id) == whisper() && path == file_path(
                app_data,
                id,
                0,
            ),
            BackendView::Parakeet(_) => chosen(id) == parakeet(),
        },
{
}

/// Has the active model to be loaded, when the given one is?
pub open spec fn needs_loading(loaded_id: Option<Seq<char>>, active: Seq<char>) -> bool {
    loaded_id != Some(active)
}

/// Is this how a model is loaded: fetched in full, unless it is ready, and then with its
/// backend?
pub open spec fn loads(
    app_data: Seq<char>,
    id: Seq<char>,
    existing: Seq<Seq<char>>,
    downloads: Seq<Download>,
    backend: BackendView,
) -> bool {
    &&& backend == backend_of(id, dir_of(app_data, id))
    &&& if complete(app_data, id, existing) {
        downloads.len() == 0
    } else {
        &&& downloads.len() == chosen(id).files.len()
        &&& forall|i: int|
            0 <= i < downloads.len() ==> is_download(
                #[trigger] downloads[i],
                app_data,
                id,
                existing,
                i,
            )
    }
}

/// What has to be done before speech can be transcribed.
#[derive(Debug)]
pub enum LoadStep {
    /// Nothing: the model is loaded.
    Loaded,
    /// Download what is not there, then load, and note it with `loaded`.
    Load { downloads: Vec<Download>, backend: Backend },
}

/// Which model is loaded, and where the models lie.
#[derive(Debug)]
pub struct Stt {
    pub loaded_id: Option<String>,
    pub app_data: String,
}

impl Stt {
    pub fn new(app_data: String) -> (r: Self)
        ensures
            r.loaded_id is None,
            r.app_data == app_data,
    {
        Stt { loaded_id: None, app_data }
    }

    /// What has to be done for the active model to be the loaded one. Nothing is
    /// downloaded for a model that is ready, and a model stays loaded until another
    /// one becomes active.
    pub fn ensure_loaded(&self, active_model_id: &str, existing: &Vec<String>) -> (r: LoadStep)
        ensures
            r is Loaded <==> !needs_loading(text::opt_view(self.loaded_id), active_model_id@),
            r matches LoadStep::Load { downloads, backend } ==> loads(
                self.app_data@,
                active_model_id@,
                text::views(existing@),
                downloads@,
                backend@,
            ),
    {
        match &self.loaded_id {
            Some(id) => {
                if text::same(id.as_str(), active_model_id) {
                    return LoadStep::Loaded;
                }
            },
            None => {},
        }
        let app_data = self.app_data.as_str();
        let downloads = if model_ready(app_data, active_model_id, existing) {
            Vec::new()
        } else {
            download_model(app_data, active_model_id, existing)
        };
        let dir = model_dir(app_data, active_model_id);
        LoadStep::Load { downloads, backend: load_model(active_model_id, dir.as_str()) }
    }

    /// Note that a model was loaded.
    pub fn loaded(&mut self, id: &str)
        ensures
            text::opt_view(final(self).loaded_id) == Some(id@),
            final(self).app_data == old(self).app_data,
    {
        self.loaded_id = Some(id.to_owned());
    }

    /// What transcribing gives: what the loaded model made of the samples, or that no
    /// model is loaded.
    pub fn transcribe(&self, heard: Result<String, String>) -> (r: Result<String, String>)
        ensures
            transcribes(self.loaded_id is Some, heard, r),
    {
        match &self.loaded_id {
            Some(_) => heard,
            None => Err("model not loaded".to_owned()),
        }
    }
}

/// Is `r` what transcribing gives, when the model made `heard` of the samples?
pub open spec fn transcribes(
    loaded: bool,
    heard: Result<String, String>,
    r: Result<String, String>,
) -> bool {
    if loaded {
        r == heard
    } else {
        r matches Err(e) && e@ == "model not loaded"@
    }
}

// ============================ picking a model ============================

/// A model as it is shown.
#[derive(Debug)]
pub struct ModelView {
    pub id: String,
    pub name: String,
    pub description: String,
    pub languages: String,
    pub size_mb: u64,
    pub downloaded: bool,
    pub active: bool,
}

/// Is this how the model is shown?
pub open spec fn shows(
    v: ModelView,
    m: SpecView,
    app_data: Seq<char>,
    active: Seq<char>,
    existing: Seq<Seq<char>>,
) -> bool {
    &&& v.id@ == m.id
    &&& v.name@ == m.name
    &&& v.description@ == m.description
    &&& v.languages@ == m.languages
    &&& v.size_mb == m.size_mb
    &&& v.downloaded == complete(app_data, m.id, existing)
    &&& v.active == (m.id == active)
}

/// The models as they are shown: each with whether it is downloaded and whether it is
/// the active one.
pub fn get_stt_models(app_data: &str, active: &str, existing: &Vec<String>) -> (r: Vec<ModelView>)
    ensures
        r@.len() == catalog().len(),
        forall|i: int|
            0 <= i < r@.len() ==> shows(
                #[trigger] r@[i],
                catalog()[i],
                app_data@,
                active@,
                text::views(existing@),
            ),
{
    let all = models();
    let ghost views = all@.map_values(|m: ModelSpec| m@);
    assert(views.len() == all@.len());
    let mut out: Vec<ModelView> = Vec::new();
    for i in 0..all.len()
        invariant
            views == all@.map_values(|m: ModelSpec| m@),
            views == catalog(),
            out@.len() == i,
            forall|j: int|
                0 <= j < i ==> shows(
                    #[trigger] out@[j],
                    catalog()[j],
                    app_data@,
                    active@,
                    text::views(existing@),
                ),
    {
        let m = &all[i];
        assert(views[i as int] == m@);
        out.push(
            ModelView {
                downloaded: model_ready(app_data, m.id, existing),
                active: text::same(m.id, active),
                id: m.id.to_owned(),
                name: m.name.to_owned(),
                description: m.description.to_owned(),
                languages: m.languages.to_owned(),
                size_mb: m.size_mb,
            },
        );
    }
    out
}

/// Is `r` what picking a model comes to?
pub open spec fn picks(
    settings: Settings,
    model_id: String,
    r: Result<Settings, String>,
) -> bool {
    match r {
        Ok(s) => known(model_id@) && s == (Settings { stt_model: model_id, ..settings }),
        Err(e) => !known(model_id@) && e@ == "unknown model: "@ + model_id@,
    }
}

/// The settings with another active model, which must be one that is known.
pub fn set_stt_model(settings: Settings, model_id: String) -> (r: Result<Settings, String>)
    ensures
        picks(settings, model_id, r),
{
    if !is_known(model_id.as_str()) {
        return Err(text::joined("unknown model: ", model_id.as_str()));
    }
    let mut s = settings;
    s.stt_model = model_id;
    Ok(s)
}

/// May the model be removed?
pub open spec fn removable(active: Seq<char>, model_id: Seq<char>) -> bool {
    active != model_id
}

/// May the model be removed? Not while it is the active one.
pub fn delete_stt_model(active: &str, model_id: &str) -> (r: Result<(), String>)
    ensures
        match r {
            Ok(_) => removable(active@, model_id@),
            Err(e) => !removable(active@, model_id@) && e@
                == "can’t delete the active model — switch first"@,
        },
{
    if text::same(active, model_id) {
        Err("can’t delete the active model — switch first".to_owned())
    } else {
        Ok(())
    }
}

// ============================ what is kept to ============================

/// A model's files lie below the directory for data, under the model's own name, so that
/// no two models share a directory.
pub proof fn law_models_have_their_own_directory(
    app_data: Seq<char>,
    a: Seq<char>,
    b: Seq<char>,
)
    requires
        app_data.len() > 0,
        app_data.last() != '/',
        a.len() == 0 || a[0] != '/',
        b.len() == 0 || b[0] != '/',
    ensures
        dir_of(app_data, a) == app_data + "/models/"@ + a,
        dir_of(app_data, a) == dir_of(app_data, b) ==> a == b,
{
    reveal_strlit("models");
    reveal_strlit("/models/");
    assert("models"@.len() == 6 && "models"@.last() == 's');
    assert("/models/"@ =~= seq!['/'] + "models"@ + seq!['/']);
    let models = paths::below(app_data, "models"@);
    paths::law_below(app_data, "models"@);
    paths::law_below(models, a);
    assert(models.last() == 's');
    assert(dir_of(app_data, a) =~= app_data + "/models/"@ + a);
    if dir_of(app_data, a) == dir_of(app_data, b) {
        paths::law_parts_differ(models, a, b);
    }
}

/// Is this the address of a file of that name, which is a plain one?
pub open spec fn names_its_file(url: Seq<char>, name: Seq<char>) -> bool {
    &&& 0 < name.len() < url.len()
    &&& name[0] != '/'
    &&& url.skip(url.len() - name.len()) == name
    &&& url[url.len() - name.len() - 1] == '/'
}

proof fn lemma_encoder_file()
    ensures
        names_its_file(
            "https://huggingface.co/istupakov/parakeet-tdt-0.6b-v2-onnx/resolve/main/encoder-model.int8.onnx"@,
            "encoder-model.int8.onnx"@,
        ),
{
    reveal_strlit("https://huggingface.co/istupakov/parakeet-tdt-0.6b-v2-onnx/resolve/main/encoder-model.int8.onnx");
    reveal_strlit("encoder-model.int8.onnx");
    assert("https://huggingface.co/istupakov/parakeet-tdt-0.6b-v2-onnx/resolve/main/encoder-model.int8.onnx"@.len() == 95);
    assert("encoder-model.int8.onnx"@.len() == 23);
    assert("https://huggingface.co/istupakov/parakeet-tdt-0.6b-v2-onnx/resolve/main/encoder-model.int8.onnx"@.skip(72) =~= "encoder-model.int8.onnx"@);
    assert("https://huggingface.co/istupakov/parakeet-tdt-0.6b-v2-onnx/resolve/main/encoder-model.int8.onnx"@[71] == '/');
}

proof fn lemma_decoder_file()
    ensures
        names_its_file(
            "https://huggingface.co/istupakov/parakeet-tdt-0.6b-v2-onnx/resolve/main/decoder_joint-model.int8.onnx"@,
            "decoder_joint-model.int8.onnx"@,
        ),
{
    reveal_strlit("https://huggingface.co/istupakov/parakeet-tdt-0.6b-v2-onnx/resolve/main/decoder_joint-model.int8.onnx");
    reveal_strlit("decoder_joint-model.int8.onnx");
    assert("https://huggingface.co/istupakov/parakeet-tdt-0.6b-v2-onnx/resolve/main/decoder_joint-model.int8.onnx"@.len() == 101);
    assert("decoder_joint-model.int8.onnx"@.len() == 29);
    assert("https://huggingface.co/istupakov/parakeet-tdt-0.6b-v2-onnx/resolve/main/decoder_joint-model.int8.onnx"@.skip(72) =~= "decoder_joint-model.int8.onnx"@);
    assert("https://huggingface.co/istupakov/parakeet-tdt-0.6b-v2-onnx/resolve/main/decoder_joint-model.int8.onnx"@[71] == '/');
}

proof fn lemma_nemo_file()
    ensures
        names_its_file(
            "https://huggingface.co/istupakov/parakeet-tdt-0.6b-v2-onnx/resolve/main/nemo128.onnx"@,
            "nemo128.onnx"@,
        ),
{
    reveal_strlit("https://huggingface.co/istupakov/parakeet-tdt-0.6b-v2-onnx/resolve/main/nemo128.onnx");
    reveal_strlit("nemo128.onnx");
    assert("https://huggingface.co/istupakov/parakeet-tdt-0.6b-v2-onnx/resolve/main/nemo128.onnx"@.len() == 84);
    assert("nemo128.onnx"@.len() == 12);
    assert("https://huggingface.co/istupakov/parakeet-tdt-0.6b-v2-onnx/resolve/main/nemo128.onnx"@.skip(72) =~= "nemo128.onnx"@);
    assert("https://huggingface.co/istupakov/parakeet-tdt-0.6b-v2-onnx/resolve/main/nemo128.onnx"@[71] == '/');
}

proof fn lemma_vocab_file()
    ensures
        names_its_file(
            "https://huggingface.co/istupakov/parakeet-tdt-0.6b-v2-onnx/resolve/main/vocab.txt"@,
            "vocab.txt"@,
        ),
{
    reveal_strlit("https://huggingface.co/istupakov/parakeet-tdt-0.6b-v2-onnx/resolve/main/vocab.txt");
    reveal_strlit("vocab.txt");
    assert("https://huggingface.co/istupakov/parakeet-tdt-0.6b-v2-onnx/resolve/main/vocab.txt"@.len() == 81);
    assert("vocab.txt"@.len() == 9);
    assert("https://huggingface.co/istupakov/parakeet-tdt-0.6b-v2-onnx/resolve/main/vocab.txt"@.skip(72) =~= "vocab.txt"@);
    assert("https://huggingface.co/istupakov/parakeet-tdt-0.6b-v2-onnx/resolve/main/vocab.txt"@[71] == '/');
}

proof fn lemma_whisper_file()
    ensures
        names_its_file(
            "https://huggingface.co/ggerganov/whisper.cpp/resolve/main/ggml-base.bin"@,
            "ggml-base.bin"@,
        ),
{
    reveal_strlit("https://huggingface.co/ggerganov/whisper.cpp/resolve/main/ggml-base.bin");
    reveal_strlit("ggml-base.bin");
    assert("https://huggingface.co/ggerganov/whisper.cpp/resolve/main/ggml-base.bin"@.len() == 71);
    assert("ggml-base.bin"@.len() == 13);
    assert("https://huggingface.co/ggerganov/whisper.cpp/resolve/main/ggml-base.bin"@.skip(58) =~= "ggml-base.bin"@);
    assert("https://huggingface.co/ggerganov/whisper.cpp/resolve/main/ggml-base.bin"@[57] == '/');
}

/// Every file of a model is fetched from an address that ends with the file's name, and
/// goes under that name into the model's directory. Until it is whole it lies beside its
/// place, under a name that is longer by an ending.
pub proof fn law_downloads_go_where_they_belong(
    app_data: Seq<char>,
    id: Seq<char>,
    existing: Seq<Seq<char>>,
    d: Download,
    i: int,
)
    requires
        0 <= i < chosen(id).files.len(),
        is_download(d, app_data, id, existing, i),
    ensures
        names_its_file(d.url@, d.name@),
        d.dest@ == paths::below(dir_of(app_data, id), d.name@),
        d.name@.is_suffix_of(d.dest@),
        dir_of(app_data, id).is_prefix_of(d.dest@),
        d.temp@ == d.dest@ + ".part"@,
        1 <= d.done <= d.total,
        d.present <==> existing.contains(d.dest@),
{
    lemma_encoder_file();
    lemma_decoder_file();
    lemma_nemo_file();
    lemma_vocab_file();
    lemma_whisper_file();
    let (url, name) = chosen(id).files[i];
    assert(names_its_file(url, name));
    let dir = dir_of(app_data, id);
    paths::law_below(dir, name);
    let part = name + ".part"@;
    assert(part[0] == name[0]);
    paths::law_below(dir, part);
    assert(paths::below(dir, part) =~= paths::below(dir, name) + ".part"@);
}

/// A file counts as done where it was there already or could be fetched, and only then;
/// otherwise the reason is told.
pub proof fn law_files_are_done(d: Download, fetched: Result<(), Seq<char>>)
    ensures
        done_with(d, fetched) is Ok <==> d.present || fetched is Ok,
        done_with(d, fetched) matches Ok(report) ==> report == (d.done, d.total),
        done_with(d, fetched) matches Err(e) ==> fetched == Err::<(), Seq<char>>(e),
{
}

/// A model is ready exactly while each of its files is there: further files do not
/// change that, and any one that is missing does.
pub proof fn law_ready_models_have_every_file(
    app_data: Seq<char>,
    id: Seq<char>,
    existing: Seq<Seq<char>>,
    more: Seq<char>,
    i: int,
)
    requires
        0 <= i < chosen(id).files.len(),
    ensures
        complete(app_data, id, existing) ==> complete(app_data, id, existing.push(more)),
        !existing.contains(file_path(app_data, id, i)) ==> !complete(app_data, id, existing),
        complete(app_data, id, existing.push(more)) && existing.contains(more) ==> complete(
            app_data,
            id,
            existing,
        ),
{
    let longer = existing.push(more);
    if complete(app_data, id, existing) {
        assert forall|j: int| 0 <= j < chosen(id).files.len() implies longer.contains(
            #[trigger] file_path(app_data, id, j),
        ) by {
            let k = existing.index_of(file_path(app_data, id, j));
            assert(longer[k] == file_path(app_data, id, j));
        }
    }
    if complete(app_data, id, longer) && existing.contains(more) {
        assert forall|j: int| 0 <= j < chosen(id).files.len() implies existing.contains(
            #[trigger] file_path(app_data, id, j),
        ) by {
            let k = longer.index_of(file_path(app_data, id, j));
            if k < existing.len() {
                assert(existing[k] == file_path(app_data, id, j));
            }
        }
    }
}

/// Of the models as they are shown, the active one is shown as active and no other is;
/// each is shown as downloaded exactly where all its files are there.
pub proof fn law_one_model_is_active(
    v: ModelView,
    i: int,
    w: ModelView,
    j: int,
    app_data: Seq<char>,
    active: Seq<char>,
    existing: Seq<Seq<char>>,
)
    requires
        0 <= i < catalog().len(),
        0 <= j < catalog().len(),
        shows(v, catalog()[i], app_data, active, existing),
        shows(w, catalog()[j], app_data, active, existing),
    ensures
        v.active && w.active ==> i == j,
        v.active <==> v.id@ == active,
        v.downloaded ==> forall|k: int|
            0 <= k < chosen(v.id@).files.len() ==> existing.contains(
                #[trigger] file_path(app_data, v.id@, k),
            ),
        !v.downloaded ==> exists|k: int|
            0 <= k < chosen(v.id@).files.len() && !existing.contains(
                #[trigger] file_path(app_data, v.id@, k),
            ),
{
    law_models_are_found(i);
}

/// The models that can be picked are the two on offer.
pub proof fn law_known_models(id: Seq<char>)
    ensures
        known(id) <==> id == "parakeet-v2"@ || id == "whisper-base"@,
        known(id) ==> chosen(id).id == id,
{
    law_models_are_found(0);
    law_models_are_found(1);
    assert(catalog()[0].id == "parakeet-v2"@);
    assert(catalog()[1].id == "whisper-base"@);
}

/// A model that was loaded is not loaded again while it is the active one; any other has
/// to be, and so has the first.
pub proof fn law_models_stay_loaded(a: Seq<char>, b: Seq<char>)
    ensures
        !needs_loading(Some(a), a),
        needs_loading(None, a),
        a != b ==> needs_loading(Some(a), b),
{
}

/// Loading a model fetches each of its files that is missing and no other, and is done
/// with the backend that the files are for.
pub proof fn law_loading_fetches_what_is_missing(
    app_data: Seq<char>,
    id: Seq<char>,
    existing: Seq<Seq<char>>,
    downloads: Seq<Download>,
    backend: BackendView,
    i: int,
)
    requires
        loads(app_data, id, existing, downloads, backend),
        0 <= i < chosen(id).files.len(),
    ensures
        !existing.contains(file_path(app_data, id, i)) ==> exists|k: int|
            {
                &&& 0 <= k < downloads.len()
                &&& (#[trigger] downloads[k]).dest@ == file_path(app_data, id, i)
                &&& downloads[k].url@ == chosen(id).files[i].0
                &&& !downloads[k].present
            },
        forall|k: int|
            0 <= k < downloads.len() && !(#[trigger] downloads[k]).present ==> !existing.contains(
                downloads[k].dest@,
            ),
        id == "whisper-base"@ ==> backend == BackendView::Whisper(file_path(app_data, id, 0)),
        id != "whisper-base"@ ==> backend == BackendView::Parakeet(dir_of(app_data, id)),
{
    if !existing.contains(file_path(app_data, id, i)) {
        assert(!complete(app_data, id, existing));
        assert(is_download(downloads[i], app_data, id, existing, i));
    }
    assert forall|k: int|
        0 <= k < downloads.len() && !(#[trigger] downloads[k]).present implies !existing.contains(
        downloads[k].dest@,
    ) by {
        assert(is_download(downloads[k], app_data, id, existing, k));
    }
}

/// What the model made of the samples is what transcribing gives, its failure too; and
/// without a model it fails.
pub proof fn law_transcripts_are_passed_on(
    loaded: bool,
    heard: Result<String, String>,
    r: Result<String, String>,
)
    requires
        transcribes(loaded, heard, r),
    ensures
        loaded ==> r == heard,
        !loaded ==> r is Err,
{
}

/// A model on offer can be picked, which changes the active model and no other setting;
/// any other name is refused, and named.
pub proof fn law_models_are_picked(
    settings: Settings,
    model_id: String,
    r: Result<Settings, String>,
)
    requires
        picks(settings, model_id, r),
    ensures
        r is Ok <==> model_id@ == "parakeet-v2"@ || model_id@ == "whisper-base"@,
        r matches Ok(s) ==> {
            &&& s.stt_model == model_id
            &&& s.provider == settings.provider
            &&& s.base_url == settings.base_url
            &&& s.model == settings.model
            &&& s.developer_mode == settings.developer_mode
        },
        r matches Err(e) ==> model_id@.is_suffix_of(e@),
{
    law_known_models(model_id@);
}

/// Every model but the active one may be removed.
pub proof fn law_active_model_stays(active: Seq<char>, model_id: Seq<char>)
    ensures
        !removable(active, active),
        removable(active, model_id) <==> model_id != active,
{
}

/// Removing a model removes the directory that its files lie in, where it is there, and
/// never that of another.
pub proof fn law_models_are_removed(
    app_data: Seq<char>,
    id: Seq<char>,
    other: Seq<char>,
    i: int,
)
    requires
        app_data.len() > 0,
        app_data.last() != '/',
        id.len() == 0 || id[0] != '/',
        other.len() == 0 || other[0] != '/',
        0 <= i < chosen(id).files.len(),
    ensures
        removal(app_data, id, false) is None,
        removal(app_data, id, true) matches Some(dir) && {
            &&& file_path(app_data, id, i) == paths::below(dir, chosen(id).files[i].1)
            &&& dir == dir_of(app_data, other) ==> id == other
        },
{
    law_models_have_their_own_directory(app_data, id, other);
}

/// A migration is due exactly where the old directory is there and the new one is not,
/// and goes from the one to the other.
pub proof fn law_migration_is_due(app_data: Seq<char>, old_is_dir: bool, new_is_dir: bool)
    requires
        app_data.len() > 0,
        app_data.last() != '/',
    ensures
        migration(app_data, old_is_dir, new_is_dir) is Some <==> old_is_dir && !new_is_dir,
        migration(app_data, old_is_dir, new_is_dir) matches Some((from, to)) ==> {
            &&& from == app_data + "/models/"@ + "parakeet-tdt-0.6b-v2"@
            &&& to == app_data + "/models/"@ + "parakeet-v2"@
        },
{
    reveal_strlit("parakeet-tdt-0.6b-v2");
    reveal_strlit("parakeet-v2");
    assert("parakeet-tdt-0.6b-v2"@[0] == 'p' && "parakeet-v2"@[0] == 'p');
    law_models_have_their_own_directory(
        app_data,
        "parakeet-tdt-0.6b-v2"@,
        "parakeet-v2"@,
    );
    law_models_have_their_own_directory(
        app_data,
        "parakeet-v2"@,
        "parakeet-tdt-0.6b-v2"@,
    );
}

} // verus!
