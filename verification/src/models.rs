//! The curated speech-model catalog and the questions asked of it: which
//! model an id names, whether its files are on disk, which downloaded model
//! is light enough to drive the live preview.
//!
//! Engines:
//! - `Whisper`         — ggml models for whisper.cpp (multilingual)
//! - `NemoCtc`         — NeMo CTC ONNX exports for sherpa-onnx (e.g. GigaAM v3)
//! - `NemoTransducer`  — NeMo transducer ONNX exports for sherpa-onnx (e.g. Parakeet TDT)
//!
//! All model files live in one models directory; a model may consist of
//! several files. What is on disk is described by a [`ModelStorage`].

use crate::text::{chars_of, comma_list_contains, comma_fields, trim_ws};
use vstd::prelude::*;

verus! {

#[derive(Clone, Copy, PartialEq, Eq, Debug, Structural)]
pub enum Engine {
    Whisper,
    NemoCtc,
    NemoTransducer,
}

#[derive(Clone, Debug)]
pub struct ModelFile {
    /// Path relative to the models directory.
    pub rel_path: String,
    pub url: String,
    pub bytes_hint: u64,
}

#[derive(Clone, Debug)]
pub struct ModelDef {
    pub id: String,
    pub label: String,
    pub size_label: String,
    /// English fallback; the UI translates curated models by id.
    pub description: String,
    pub engine: Engine,
    /// "multilingual" or comma-separated language codes like "ru" or "de,en".
    pub languages: String,
    /// Mel filterbank size override for sherpa-onnx (old GigaAM exports
    /// need an explicit 64).
    pub feature_dim: Option<i32>,
    /// File order is significant: CTC = [model, tokens];
    /// transducer = [encoder, decoder, joiner, tokens].
    pub files: Vec<ModelFile>,
}

pub struct ModelFileModel {
    pub rel_path: Seq<char>,
    pub url: Seq<char>,
    pub bytes_hint: u64,
}

pub struct ModelDefModel {
    pub id: Seq<char>,
    pub label: Seq<char>,
    pub size_label: Seq<char>,
    pub description: Seq<char>,
    pub engine: Engine,
    pub languages: Seq<char>,
    pub feature_dim: Option<i32>,
    pub files: Seq<ModelFileModel>,
}

impl View for ModelFile {
    type V = ModelFileModel;

    open spec fn view(&self) -> ModelFileModel {
        ModelFileModel { rel_path: self.rel_path@, url: self.url@, bytes_hint: self.bytes_hint }
    }
}

impl View for ModelDef {
    type V = ModelDefModel;

    open spec fn view(&self) -> ModelDefModel {
        ModelDefModel {
            id: self.id@,
            label: self.label@,
            size_label: self.size_label@,
            description: self.description@,
            engine: self.engine,
            languages: self.languages@,
            feature_dim: self.feature_dim,
            files: self.files@.map_values(|f: ModelFile| f@),
        }
    }
}

pub open spec fn defs_view(defs: Seq<ModelDef>) -> Seq<ModelDefModel> {
    defs.map_values(|d: ModelDef| d@)
}

/// Sum of the size hints of `files`.
pub open spec fn files_total(files: Seq<ModelFileModel>) -> nat
    decreases files.len(),
{
    if files.len() == 0 {
        0
    } else {
        files_total(files.drop_last()) + files.last().bytes_hint as nat
    }
}

pub proof fn lemma_files_total_prefix(files: Seq<ModelFileModel>, i: int)
    requires
        0 <= i <= files.len(),
    ensures
        files_total(files.take(i)) <= files_total(files),
    decreases files.len() - i,
{
    if i < files.len() {
        lemma_files_total_prefix(files, i + 1);
        assert(files.take(i + 1).drop_last() =~= files.take(i));
    } else {
        assert(files.take(i) =~= files);
    }
}

/// A model definition whose size hints add up within `u64`.
pub open spec fn total_fits(d: ModelDefModel) -> bool {
    files_total(d.files) <= u64::MAX
}

impl ModelFile {
    /// A copy of this file description.
    pub fn duplicate(&self) -> (r: Self)
        ensures
            r@ == self@,
    {
        ModelFile { rel_path: self.rel_path.clone(), url: self.url.clone(), bytes_hint: self.bytes_hint }
    }
}

impl ModelDef {
    /// The sum of the size hints of the model's files.
    pub fn bytes_hint_total(&self) -> (r: u64)
        requires
            total_fits(self@),
        ensures
            r == files_total(self@.files),
    {
        let ghost fs = self@.files;
        let mut total: u64 = 0;
        for i in 0..self.files.len()
            invariant
                fs == self@.files,
                files_total(fs) <= u64::MAX,
                total == files_total(fs.take(i as int)),
        {
            proof {
                lemma_files_total_prefix(fs, i + 1);
                assert(fs.take(i + 1).drop_last() =~= fs.take(i as int));
            }
            total = total + self.files[i].bytes_hint;
        }
        assert(fs.take(self.files.len() as int) =~= fs);
        total
    }

    /// A copy of this definition.
    pub fn duplicate(&self) -> (r: Self)
        ensures
            r@ == self@,
    {
        let mut files: Vec<ModelFile> = Vec::new();
        for i in 0..self.files.len()
            invariant
                files@.len() == i,
                forall|j: int| 0 <= j < i ==> (#[trigger] files@[j])@ == self.files@[j]@,
        {
            files.push(self.files[i].duplicate());
        }
        assert(files@.map_values(|f: ModelFile| f@) =~= self.files@.map_values(|f: ModelFile| f@));
        ModelDef {
            id: self.id.clone(),
            label: self.label.clone(),
            size_label: self.size_label.clone(),
            description: self.description.clone(),
            engine: self.engine,
            languages: self.languages.clone(),
            feature_dim: self.feature_dim,
            files,
        }
    }
}

} // verus!

verus! {

pub open spec fn file_model(rel_path: Seq<char>, url: Seq<char>, bytes_hint: u64) -> ModelFileModel {
    ModelFileModel { rel_path, url, bytes_hint }
}

/// Where whisper.cpp's ggml models are downloaded from.
pub open spec fn whisper_url(file: Seq<char>) -> Seq<char> {
    "https://huggingface.co/ggerganov/whisper.cpp/resolve/main/"@ + file
}

/// A multilingual whisper.cpp model made of one ggml file.
pub open spec fn whisper_def(
    id: Seq<char>,
    label: Seq<char>,
    size_label: Seq<char>,
    description: Seq<char>,
    file: Seq<char>,
    bytes: u64,
) -> ModelDefModel {
    ModelDefModel {
        id,
        label,
        size_label,
        description,
        engine: Engine::Whisper,
        languages: "multilingual"@,
        feature_dim: None,
        files: seq![file_model(file, whisper_url(file), bytes)],
    }
}

pub open spec fn gigaam_def() -> ModelDefModel {
    ModelDefModel {
        id: "gigaam-v3-e2e-ctc"@,
        label: "GigaAM v3 (Sber)"@,
        size_label: "~225 MB"@,
        description: "Best for Russian: SOTA accuracy with punctuation"@,
        engine: Engine::NemoCtc,
        languages: "ru"@,
        feature_dim: Some(64i32),
        files: seq![
            file_model(
                "gigaam-v3-e2e-ctc.int8.onnx"@,
                "https://huggingface.co/csukuangfj/sherpa-onnx-nemo-ctc-punct-giga-am-v3-russian-2025-12-16/resolve/main/model.int8.onnx"@,
                224_893_661,
            ),
            file_model(
                "gigaam-v3-e2e-ctc.tokens.txt"@,
                "https://huggingface.co/csukuangfj/sherpa-onnx-nemo-ctc-punct-giga-am-v3-russian-2025-12-16/resolve/main/tokens.txt"@,
                2_007,
            ),
        ],
    }
}

pub open spec fn podlodka_def() -> ModelDefModel {
    ModelDefModel {
        id: "whisper-podlodka-turbo"@,
        label: "Whisper Podlodka Turbo"@,
        size_label: "~874 MB"@,
        description: "Russian-tuned Whisper: strong accuracy with punctuation"@,
        engine: Engine::Whisper,
        languages: "ru"@,
        feature_dim: None,
        files: seq![
            file_model(
                "ggml-podlodka-turbo-q8_0.bin"@,
                "https://huggingface.co/evilfreelancer/whisper-podlodka-turbo-GGUF/resolve/main/ggml-podlodka-turbo-q8_0.bin"@,
                874_188_075,
            ),
        ],
    }
}

pub open spec fn parakeet_def() -> ModelDefModel {
    ModelDefModel {
        id: "parakeet-tdt-0.6b-v3"@,
        label: "Parakeet TDT v3 (NVIDIA)"@,
        size_label: "~670 MB"@,
        description: "Best for European languages: 25 languages with punctuation"@,
        engine: Engine::NemoTransducer,
        languages: "multilingual"@,
        feature_dim: None,
        files: seq![
            file_model(
                "parakeet-tdt-v3.encoder.int8.onnx"@,
                "https://huggingface.co/csukuangfj/sherpa-onnx-nemo-parakeet-tdt-0.6b-v3-int8/resolve/main/encoder.int8.onnx"@,
                652_184_281,
            ),
            file_model(
                "parakeet-tdt-v3.decoder.int8.onnx"@,
                "https://huggingface.co/csukuangfj/sherpa-onnx-nemo-parakeet-tdt-0.6b-v3-int8/resolve/main/decoder.int8.onnx"@,
                11_845_275,
            ),
            file_model(
                "parakeet-tdt-v3.joiner.int8.onnx"@,
                "https://huggingface.co/csukuangfj/sherpa-onnx-nemo-parakeet-tdt-0.6b-v3-int8/resolve/main/joiner.int8.onnx"@,
                6_355_277,
            ),
            file_model(
                "parakeet-tdt-v3.tokens.txt"@,
                "https://huggingface.co/csukuangfj/sherpa-onnx-nemo-parakeet-tdt-0.6b-v3-int8/resolve/main/tokens.txt"@,
                93_939,
            ),
        ],
    }
}

/// The curated catalog, in the order the settings window lists it.
pub open spec fn curated_models() -> Seq<ModelDefModel> {
    seq![
        gigaam_def(),
        podlodka_def(),
        parakeet_def(),
        whisper_def("tiny"@, "Tiny"@, "~75 MB"@, "Fastest, lowest accuracy"@, "ggml-tiny.bin"@, 77_700_000),
        whisper_def("base"@, "Base"@, "~142 MB"@, "Fast, decent for short phrases"@, "ggml-base.bin"@, 147_950_000),
        whisper_def("small"@, "Small"@, "~466 MB"@, "Balanced speed and accuracy"@, "ggml-small.bin"@, 487_600_000),
        whisper_def("medium"@, "Medium"@, "~1.5 GB"@, "Slower, high accuracy"@, "ggml-medium.bin"@, 1_533_800_000),
        whisper_def(
            "large-v3-turbo-q5_0"@,
            "Large v3 Turbo (Q5)"@,
            "~547 MB"@,
            "Great accuracy, compact and fast"@,
            "ggml-large-v3-turbo-q5_0.bin"@,
            574_000_000,
        ),
        whisper_def(
            "large-v3-turbo"@,
            "Large v3 Turbo"@,
            "~1.6 GB"@,
            "Best multilingual accuracy"@,
            "ggml-large-v3-turbo.bin"@,
            1_624_600_000,
        ),
    ]
}

fn text(s: &str) -> (r: String)
    ensures
        r@ == s@,
{
    String::from_str(s)
}

fn model_file(rel_path: &str, url: &str, bytes_hint: u64) -> (r: ModelFile)
    ensures
        r@ == file_model(rel_path@, url@, bytes_hint),
{
    ModelFile { rel_path: text(rel_path), url: text(url), bytes_hint }
}

/// A multilingual whisper.cpp model made of the one ggml file `file`.
pub fn whisper_model(
    id: &str,
    label: &str,
    size_label: &str,
    description: &str,
    file: &str,
    bytes: u64,
) -> (r: ModelDef)
    ensures
        r@ == whisper_def(id@, label@, size_label@, description@, file@, bytes),
{
    let mut url = text("https://huggingface.co/ggerganov/whisper.cpp/resolve/main/");
    url.append(file);
    let mut files: Vec<ModelFile> = Vec::new();
    files.push(ModelFile { rel_path: text(file), url, bytes_hint: bytes });
    let r = ModelDef {
        id: text(id),
        label: text(label),
        size_label: text(size_label),
        description: text(description),
        engine: Engine::Whisper,
        languages: text("multilingual"),
        feature_dim: None,
        files,
    };
    assert(r@.files =~= seq![file_model(file@, whisper_url(file@), bytes)]);
    r
}

fn gigaam() -> (r: ModelDef)
    ensures
        r@ == gigaam_def(),
{
    let mut files: Vec<ModelFile> = Vec::new();
    files.push(
        model_file(
            "gigaam-v3-e2e-ctc.int8.onnx",
            "https://huggingface.co/csukuangfj/sherpa-onnx-nemo-ctc-punct-giga-am-v3-russian-2025-12-16/resolve/main/model.int8.onnx",
            224_893_661,
        ),
    );
    files.push(
        model_file(
            "gigaam-v3-e2e-ctc.tokens.txt",
            "https://huggingface.co/csukuangfj/sherpa-onnx-nemo-ctc-punct-giga-am-v3-russian-2025-12-16/resolve/main/tokens.txt",
            2_007,
        ),
    );
    let r = ModelDef {
        id: text("gigaam-v3-e2e-ctc"),
        label: text("GigaAM v3 (Sber)"),
        size_label: text("~225 MB"),
        description: text("Best for Russian: SOTA accuracy with punctuation"),
        engine: Engine::NemoCtc,
        languages: text("ru"),
        feature_dim: Some(64),
        files,
    };
    assert(r@.files =~= gigaam_def().files);
    r
}

fn podlodka() -> (r: ModelDef)
    ensures
        r@ == podlodka_def(),
{
    let mut files: Vec<ModelFile> = Vec::new();
    files.push(
        model_file(
            "ggml-podlodka-turbo-q8_0.bin",
            "https://huggingface.co/evilfreelancer/whisper-podlodka-turbo-GGUF/resolve/main/ggml-podlodka-turbo-q8_0.bin",
            874_188_075,
        ),
    );
    let r = ModelDef {
        id: text("whisper-podlodka-turbo"),
        label: text("Whisper Podlodka Turbo"),
        size_label: text("~874 MB"),
        description: text("Russian-tuned Whisper: strong accuracy with punctuation"),
        engine: Engine::Whisper,
        languages: text("ru"),
        feature_dim: None,
        files,
    };
    assert(r@.files =~= podlodka_def().files);
    r
}

fn parakeet() -> (r: ModelDef)
    ensures
        r@ == parakeet_def(),
{
    let mut files: Vec<ModelFile> = Vec::new();
    files.push(
        model_file(
            "parakeet-tdt-v3.encoder.int8.onnx",
            "https://huggingface.co/csukuangfj/sherpa-onnx-nemo-parakeet-tdt-0.6b-v3-int8/resolve/main/encoder.int8.onnx",
            652_184_281,
        ),
    );
    files.push(
        model_file(
            "parakeet-tdt-v3.decoder.int8.onnx",
            "https://huggingface.co/csukuangfj/sherpa-onnx-nemo-parakeet-tdt-0.6b-v3-int8/resolve/main/decoder.int8.onnx",
            11_845_275,
        ),
    );
    files.push(
        model_file(
            "parakeet-tdt-v3.joiner.int8.onnx",
            "https://huggingface.co/csukuangfj/sherpa-onnx-nemo-parakeet-tdt-0.6b-v3-int8/resolve/main/joiner.int8.onnx",
            6_355_277,
        ),
    );
    files.push(
        model_file(
            "parakeet-tdt-v3.tokens.txt",
            "https://huggingface.co/csukuangfj/sherpa-onnx-nemo-parakeet-tdt-0.6b-v3-int8/resolve/main/tokens.txt",
            93_939,
        ),
    );
    let r = ModelDef {
        id: text("parakeet-tdt-0.6b-v3"),
        label: text("Parakeet TDT v3 (NVIDIA)"),
        size_label: text("~670 MB"),
        description: text("Best for European languages: 25 languages with punctuation"),
        engine: Engine::NemoTransducer,
        languages: text("multilingual"),
        feature_dim: None,
        files,
    };
    assert(r@.files =~= parakeet_def().files);
    r
}

/// The curated catalog.
pub fn curated() -> (r: Vec<ModelDef>)
    ensures
        defs_view(r@) == curated_models(),
{
    let mut v: Vec<ModelDef> = Vec::new();
    v.push(gigaam());
    v.push(podlodka());
    v.push(parakeet());
    v.push(whisper_model("tiny", "Tiny", "~75 MB", "Fastest, lowest accuracy", "ggml-tiny.bin", 77_700_000));
    v.push(
        whisper_model("base", "Base", "~142 MB", "Fast, decent for short phrases", "ggml-base.bin", 147_950_000),
    );
    v.push(
        whisper_model("small", "Small", "~466 MB", "Balanced speed and accuracy", "ggml-small.bin", 487_600_000),
    );
    v.push(
        whisper_model("medium", "Medium", "~1.5 GB", "Slower, high accuracy", "ggml-medium.bin", 1_533_800_000),
    );
    v.push(
        whisper_model(
            "large-v3-turbo-q5_0",
            "Large v3 Turbo (Q5)",
            "~547 MB",
            "Great accuracy, compact and fast",
            "ggml-large-v3-turbo-q5_0.bin",
            574_000_000,
        ),
    );
    v.push(
        whisper_model(
            "large-v3-turbo",
            "Large v3 Turbo",
            "~1.6 GB",
            "Best multilingual accuracy",
            "ggml-large-v3-turbo.bin",
            1_624_600_000,
        ),
    );
    assert(defs_view(v@) =~= curated_models());
    v
}

} // verus!

verus! {

/// The first definition of `defs` with id `id`.
pub open spec fn find_def(defs: Seq<ModelDefModel>, id: Seq<char>) -> Option<ModelDefModel>
    decreases defs.len(),
{
    if defs.len() == 0 {
        None
    } else if defs[0].id == id {
        Some(defs[0])
    } else {
        find_def(defs.drop_first(), id)
    }
}

/// Resolves a model id from the curated catalog.
pub fn def_by_id(id: &str) -> (r: Option<ModelDef>)
    ensures
        match find_def(curated_models(), id@) {
            Some(d) => r matches Some(def) && def@ == d,
            None => r is None,
        },
{
    let defs = curated();
    let key = text(id);
    let ghost all = curated_models();
    let mut i: usize = 0;
    assert(all.subrange(0, all.len() as int) =~= all);
    while i < defs.len()
        invariant
            all == curated_models(),
            defs_view(defs@) == all,
            key@ == id@,
            i <= defs@.len(),
            find_def(all, id@) == find_def(all.subrange(i as int, all.len() as int), id@),
        decreases defs@.len() - i,
    {
        let ghost rest = all.subrange(i as int, all.len() as int);
        assert(rest[0] == defs@[i as int]@);
        if defs[i].id == key {
            return Some(defs[i].duplicate());
        }
        assert(rest.drop_first() =~= all.subrange(i + 1, all.len() as int));
        i = i + 1;
    }
    assert(all.subrange(i as int, all.len() as int) =~= Seq::<ModelDefModel>::empty());
    None
}

/// What is on disk: the models directory (when it could be set up) and the
/// paths, relative to it, that exist as regular files.
pub struct ModelStorage {
    pub dir: Option<String>,
    pub present: Vec<String>,
}

pub struct StorageModel {
    pub dir: Option<Seq<char>>,
    pub present: Seq<Seq<char>>,
}

impl View for ModelStorage {
    type V = StorageModel;

    open spec fn view(&self) -> StorageModel {
        StorageModel {
            dir: match self.dir {
                Some(d) => Some(d@),
                None => None,
            },
            present: self.present@.map_values(|p: String| p@),
        }
    }
}

/// `Path::join` of a relative path onto `dir`.
pub open spec fn join_path(dir: Seq<char>, rel: Seq<char>) -> Seq<char> {
    if dir.len() == 0 {
        rel
    } else if dir.last() == '/' {
        dir + rel
    } else {
        dir + seq!['/'] + rel
    }
}

/// The absolute paths of `d`'s files, in definition order, when every one
/// of them exists.
pub open spec fn resolved_paths(d: ModelDefModel, s: StorageModel) -> Option<Seq<Seq<char>>> {
    match s.dir {
        None => None,
        Some(dir) => if forall|i: int| 0 <= i < d.files.len() ==> s.present.contains(#[trigger] d.files[i].rel_path) {
            Some(d.files.map_values(|f: ModelFileModel| join_path(dir, f.rel_path)))
        } else {
            None
        },
    }
}

/// `Path::join` of the relative path `rel` onto `dir`.
pub fn join_dir(dir: &String, rel: &String) -> (r: String)
    ensures
        r@ == join_path(dir@, rel@),
{
    let d = chars_of(dir.as_str());
    let mut out = dir.clone();
    if d.len() == 0 {
        return rel.clone();
    }
    if d[d.len() - 1] != '/' {
        out.append("/");
        proof {
            reveal_strlit("/");
        }
    }
    out.append(rel.as_str());
    proof {
        if dir@.last() != '/' {
            assert(out@ =~= dir@ + seq!['/'] + rel@);
        }
    }
    out
}

fn has_file(present: &Vec<String>, rel: &String) -> (r: bool)
    ensures
        r == present@.map_values(|p: String| p@).contains(rel@),
{
    let ghost pv = present@.map_values(|p: String| p@);
    for i in 0..present.len()
        invariant
            pv == present@.map_values(|p: String| p@),
            forall|j: int| 0 <= j < i ==> pv[j] != rel@,
    {
        if present[i] == *rel {
            assert(pv[i as int] == rel@);
            return true;
        }
    }
    false
}

impl ModelStorage {
    /// The models directory, if it is set up.
    pub fn models_dir(&self) -> (r: Option<&String>)
        ensures
            match r {
                Some(d) => self@.dir == Some(d@),
                None => self@.dir is None,
            },
    {
        self.dir.as_ref()
    }
}

/// Absolute paths of all model files, in definition order, if every file
/// exists.
pub fn resolve_paths(def: &ModelDef, storage: &ModelStorage) -> (r: Option<Vec<String>>)
    ensures
        match resolved_paths(def@, storage@) {
            Some(ps) => r matches Some(v) && v@.map_values(|p: String| p@) == ps,
            None => r is None,
        },
{
    let dir = match &storage.dir {
        Some(d) => d,
        None => {
            return None;
        },
    };
    let ghost fs = def@.files;
    let mut paths: Vec<String> = Vec::new();
    for i in 0..def.files.len()
        invariant
            fs == def@.files,
            storage@.dir == Some(dir@),
            paths@.len() == i,
            forall|j: int| 0 <= j < i ==> storage@.present.contains(#[trigger] fs[j].rel_path),
            forall|j: int| 0 <= j < i ==> (#[trigger] paths@[j])@ == join_path(dir@, fs[j].rel_path),
    {
        if !has_file(&storage.present, &def.files[i].rel_path) {
            assert(!storage@.present.contains(fs[i as int].rel_path));
            return None;
        }
        paths.push(join_dir(dir, &def.files[i].rel_path));
    }
    assert(paths@.map_values(|p: String| p@) =~= fs.map_values(
        |f: ModelFileModel| join_path(dir@, f.rel_path),
    ));
    Some(paths)
}

/// Whether the model `model_id` is in the catalog and all its files exist.
pub open spec fn downloaded(model_id: Seq<char>, s: StorageModel) -> bool {
    match find_def(curated_models(), model_id) {
        Some(d) => resolved_paths(d, s) is Some,
        None => false,
    }
}

pub fn is_downloaded(model_id: &str, storage: &ModelStorage) -> (r: bool)
    ensures
        r == downloaded(model_id@, storage@),
{
    match def_by_id(model_id) {
        Some(def) => resolve_paths(&def, storage).is_some(),
        None => false,
    }
}

/// No two models of `ds` share an id.
pub open spec fn ids_distinct(ds: Seq<ModelDefModel>) -> bool {
    forall|i: int, j: int| 0 <= i < j < ds.len() ==> (#[trigger] ds[i]).id != (#[trigger] ds[j]).id
}

/// The catalog names each model by an id of its own.
pub proof fn lemma_curated_ids_distinct()
    ensures
        ids_distinct(curated_models()),
{
    reveal_strlit("gigaam-v3-e2e-ctc");
    reveal_strlit("whisper-podlodka-turbo");
    reveal_strlit("parakeet-tdt-0.6b-v3");
    reveal_strlit("tiny");
    reveal_strlit("base");
    reveal_strlit("small");
    reveal_strlit("medium");
    reveal_strlit("large-v3-turbo-q5_0");
    reveal_strlit("large-v3-turbo");
    let c = curated_models();
    assert(c.len() == 9);
    assert(c[0].id.len() == 17);
    assert(c[1].id.len() == 22);
    assert(c[2].id.len() == 20);
    assert(c[3].id.len() == 4);
    assert(c[4].id.len() == 4);
    assert(c[5].id.len() == 5);
    assert(c[6].id.len() == 6);
    assert(c[7].id.len() == 19);
    assert(c[8].id.len() == 14);
    assert(c[3].id[0] != c[4].id[0]);
    assert forall|i: int, j: int| 0 <= i < j < c.len() implies (#[trigger] c[i]).id != (#[trigger] c[j]).id by {
        assert(i == 0 || i == 1 || i == 2 || i == 3 || i == 4 || i == 5 || i == 6 || i == 7);
        assert(j == 1 || j == 2 || j == 3 || j == 4 || j == 5 || j == 6 || j == 7 || j == 8);
    }
}

/// Where ids are distinct, looking up the id of a model finds that model.
pub proof fn lemma_find_def_of_member(ds: Seq<ModelDefModel>, i: int)
    requires
        ids_distinct(ds),
        0 <= i < ds.len(),
    ensures
        find_def(ds, ds[i].id) == Some(ds[i]),
    decreases ds.len(),
{
    if i > 0 {
        let rest = ds.drop_first();
        assert(ds[0].id != ds[i].id);
        assert(rest[i - 1] == ds[i]);
        assert forall|a: int, b: int| 0 <= a < b < rest.len() implies (#[trigger] rest[a]).id != (#[trigger] rest[b]).id by {
            assert(rest[a] == ds[a + 1]);
            assert(rest[b] == ds[b + 1]);
        }
        lemma_find_def_of_member(rest, i - 1);
    }
}

/// "base", the default model, is in the catalog.
pub proof fn lemma_base_is_in_catalog()
    ensures
        find_def(curated_models(), "base"@) == Some(curated_models()[4]),
{
    lemma_curated_ids_distinct();
    lemma_find_def_of_member(curated_models(), 4);
}

/// Whether at least one curated model has already been downloaded: some
/// model of the catalog has all its files on disk, or equally, the id of
/// some model of the catalog counts as downloaded.
pub fn any_model_downloaded(storage: &ModelStorage) -> (r: bool)
    ensures
        r == exists|i: int|
            0 <= i < curated_models().len() && (#[trigger] resolved_paths(curated_models()[i], storage@)) is Some,
        r == exists|i: int|
            0 <= i < curated_models().len() && downloaded(#[trigger] curated_models()[i].id, storage@),
{
    proof {
        let c = curated_models();
        lemma_curated_ids_distinct();
        assert forall|i: int| 0 <= i < c.len() implies downloaded(#[trigger] c[i].id, storage@) == (
        resolved_paths(c[i], storage@) is Some) by {
            lemma_find_def_of_member(c, i);
        }
    }
    let defs = curated();
    let ghost all = curated_models();
    for i in 0..defs.len()
        invariant
            all == curated_models(),
            defs_view(defs@) == all,
            forall|j: int| 0 <= j < i ==> (#[trigger] resolved_paths(all[j], storage@)) is None,
            forall|j: int|
                0 <= j < all.len() ==> downloaded(#[trigger] all[j].id, storage@) == (resolved_paths(
                    all[j],
                    storage@,
                ) is Some),
    {
        assert(all[i as int] == defs@[i as int]@);
        if resolve_paths(&defs[i], storage).is_some() {
            assert(downloaded(all[i as int].id, storage@));
            return true;
        }
    }
    false
}

} // verus!

verus! {

/// Relative cost of re-decoding a growing clip for the live preview: lower
/// is lighter; `None` for models too heavy to re-run every few hundred
/// milliseconds.
pub open spec fn speed_rank(d: ModelDefModel) -> Option<u32> {
    match d.engine {
        Engine::NemoCtc => Some(0u32),
        Engine::NemoTransducer => Some(1u32),
        Engine::Whisper => if files_total(d.files) <= 200_000_000 {
            Some(2u32)
        } else if files_total(d.files) <= 600_000_000 {
            Some(3u32)
        } else {
            None
        },
    }
}

/// Whether `d` can transcribe `language`: multilingual models and the
/// unknown target language ("" or "auto") always can; otherwise the
/// language must be one of the model's comma-separated codes.
pub open spec fn supports_language(d: ModelDefModel, language: Seq<char>) -> bool {
    ||| d.languages == "multilingual"@
    ||| language.len() == 0
    ||| language == "auto"@
    ||| exists|j: int|
        0 <= j < comma_fields(d.languages).len() && #[trigger] trim_ws(comma_fields(d.languages)[j])
            == language
}

pub fn streaming_speed_rank(def: &ModelDef) -> (r: Option<u32>)
    requires
        total_fits(def@),
    ensures
        r == speed_rank(def@),
{
    match def.engine {
        Engine::NemoCtc => Some(0),
        Engine::NemoTransducer => Some(1),
        Engine::Whisper => {
            let total = def.bytes_hint_total();
            if total <= 200_000_000 {
                Some(2)
            } else if total <= 600_000_000 {
                Some(3)
            } else {
                None
            }
        },
    }
}

pub fn language_supported(def: &ModelDef, language: &str) -> (r: bool)
    ensures
        r == supports_language(def@, language@),
{
    if def.languages == text("multilingual") {
        return true;
    }
    let lang = chars_of(language);
    if lang.len() == 0 || text(language) == text("auto") {
        return true;
    }
    comma_list_contains(&chars_of(def.languages.as_str()), &lang)
}

/// `a` sorts before `b` when choosing a preview model: lower rank, then
/// smaller download.
pub open spec fn preview_before(a: ModelDefModel, b: ModelDefModel) -> bool {
    let ra = speed_rank(a)->0;
    let rb = speed_rank(b)->0;
    ||| ra < rb
    ||| ra == rb && files_total(a.files) < files_total(b.files)
}

pub open spec fn preview_eligible(d: ModelDefModel, language: Seq<char>) -> bool {
    supports_language(d, language) && speed_rank(d) is Some
}

/// Index of the candidate chosen for the live preview: among those that
/// support `language` and are light enough, the first of the lowest
/// (rank, total size).
pub open spec fn preview_index(ds: Seq<ModelDefModel>, language: Seq<char>) -> Option<int>
    decreases ds.len(),
{
    if ds.len() == 0 {
        None
    } else {
        let prev = preview_index(ds.drop_last(), language);
        let i = ds.len() - 1;
        if !preview_eligible(ds[i], language) {
            prev
        } else {
            match prev {
                None => Some(i),
                Some(p) => if preview_before(ds[i], ds[p]) {
                    Some(i)
                } else {
                    prev
                },
            }
        }
    }
}

pub proof fn lemma_preview_index_bounds(ds: Seq<ModelDefModel>, language: Seq<char>)
    ensures
        match preview_index(ds, language) {
            Some(i) => 0 <= i < ds.len() && preview_eligible(ds[i], language),
            None => true,
        },
    decreases ds.len(),
{
    if ds.len() > 0 {
        lemma_preview_index_bounds(ds.drop_last(), language);
    }
}

/// Picks, among `candidates`, the model that drives the live preview (see
/// [`preview_index`]); `None` when none is both light enough and
/// compatible with `language`.
pub fn pick_preview_model<'a>(candidates: &'a Vec<ModelDef>, language: &str) -> (r: Option<&'a ModelDef>)
    requires
        forall|i: int| 0 <= i < candidates@.len() ==> total_fits(#[trigger] candidates@[i]@),
    ensures
        match preview_index(defs_view(candidates@), language@) {
            Some(i) => r matches Some(d) && d@ == candidates@[i]@,
            None => r is None,
        },
{
    let ghost ds = defs_view(candidates@);
    let mut best: Option<usize> = None;
    let mut best_rank: u32 = 0;
    let mut best_total: u64 = 0;
    for i in 0..candidates.len()
        invariant
            ds == defs_view(candidates@),
            forall|k: int| 0 <= k < candidates@.len() ==> total_fits(#[trigger] candidates@[k]@),
            match preview_index(ds.take(i as int), language@) {
                Some(p) => best == Some(p as usize) && speed_rank(ds[p]) == Some(best_rank)
                    && files_total(ds[p].files) == best_total,
                None => best is None,
            },
    {
        proof {
            lemma_preview_index_bounds(ds.take(i as int), language@);
            assert(ds.take(i + 1).drop_last() =~= ds.take(i as int));
            assert(ds.take(i + 1)[i as int] == candidates@[i as int]@);
            match preview_index(ds.take(i as int), language@) {
                Some(p) => {
                    assert(ds.take(i + 1)[p] == ds[p]);
                    assert(ds.take(i as int)[p] == ds[p]);
                },
                None => {},
            }
        }
        let def = &candidates[i];
        if language_supported(def, language) {
            match streaming_speed_rank(def) {
                Some(rank) => {
                    let total = def.bytes_hint_total();
                    let take = match best {
                        None => true,
                        Some(_) => rank < best_rank || (rank == best_rank && total < best_total),
                    };
                    if take {
                        best = Some(i);
                        best_rank = rank;
                        best_total = total;
                    }
                },
                None => {},
            }
        }
    }
    assert(ds.take(candidates@.len() as int) =~= ds);
    proof {
        lemma_preview_index_bounds(ds, language@);
    }
    match best {
        Some(b) => Some(&candidates[b]),
        None => None,
    }
}

} // verus!

verus! {

proof fn lemma_files_total_small(a: ModelFileModel, b: ModelFileModel, c: ModelFileModel, d: ModelFileModel)
    ensures
        files_total(seq![a]) == a.bytes_hint,
        files_total(seq![a, b]) == a.bytes_hint + b.bytes_hint,
        files_total(seq![a, b, c, d]) == a.bytes_hint + b.bytes_hint + c.bytes_hint + d.bytes_hint,
{
    assert(files_total(Seq::<ModelFileModel>::empty()) == 0);
    assert(seq![a].drop_last() =~= Seq::<ModelFileModel>::empty());
    assert(seq![a].last() == a);
    assert(files_total(seq![a]) == a.bytes_hint);
    assert(seq![a, b].drop_last() =~= seq![a]);
    assert(seq![a, b].last() == b);
    assert(files_total(seq![a, b]) == a.bytes_hint + b.bytes_hint);
    assert(seq![a, b, c].drop_last() =~= seq![a, b]);
    assert(seq![a, b, c].last() == c);
    assert(files_total(seq![a, b, c]) == a.bytes_hint + b.bytes_hint + c.bytes_hint);
    assert(seq![a, b, c, d].drop_last() =~= seq![a, b, c]);
    assert(seq![a, b, c, d].last() == d);
}

/// The size hints of every curated model add up within `u64`.
pub proof fn lemma_curated_totals_fit()
    ensures
        forall|i: int| 0 <= i < curated_models().len() ==> total_fits(#[trigger] curated_models()[i]),
{
    let g = gigaam_def().files;
    lemma_files_total_small(g[0], g[1], g[0], g[0]);
    assert(g =~= seq![g[0], g[1]]);
    let p = parakeet_def().files;
    lemma_files_total_small(p[0], p[1], p[2], p[3]);
    assert(p =~= seq![p[0], p[1], p[2], p[3]]);
    assert forall|i: int| 0 <= i < curated_models().len() implies total_fits(#[trigger] curated_models()[i]) by {
        let f = curated_models()[i].files;
        if i != 0 && i != 2 {
            lemma_files_total_small(f[0], f[0], f[0], f[0]);
            assert(f =~= seq![f[0]]);
        }
    }
}

/// The curated models whose files are all on disk, in catalog order.
pub open spec fn downloaded_defs(ds: Seq<ModelDefModel>, s: StorageModel) -> Seq<ModelDefModel>
    decreases ds.len(),
{
    if ds.len() == 0 {
        Seq::empty()
    } else {
        let r = downloaded_defs(ds.drop_last(), s);
        if resolved_paths(ds.last(), s) is Some {
            r.push(ds.last())
        } else {
            r
        }
    }
}

/// The id of the lightest downloaded model that can drive the live preview
/// for `language`, independent of the model chosen for final transcription.
pub open spec fn preview_model(language: Seq<char>, s: StorageModel) -> Option<Seq<char>> {
    let ds = downloaded_defs(curated_models(), s);
    match preview_index(ds, language) {
        Some(i) => Some(ds[i].id),
        None => None,
    }
}

/// Picks the lightest downloaded model to drive the live preview (see
/// [`pick_preview_model`]).
pub fn resolve_preview_model(language: &str, storage: &ModelStorage) -> (r: Option<String>)
    ensures
        match preview_model(language@, storage@) {
            Some(id) => r matches Some(s) && s@ == id,
            None => r is None,
        },
{
    proof {
        lemma_curated_totals_fit();
    }
    let defs = curated();
    let ghost all = curated_models();
    let mut candidates: Vec<ModelDef> = Vec::new();
    for i in 0..defs.len()
        invariant
            all == curated_models(),
            defs_view(defs@) == all,
            forall|k: int| 0 <= k < all.len() ==> total_fits(#[trigger] all[k]),
            defs_view(candidates@) == downloaded_defs(all.take(i as int), storage@),
            forall|k: int| 0 <= k < candidates@.len() ==> total_fits(#[trigger] candidates@[k]@),
    {
        assert(all.take(i + 1).drop_last() =~= all.take(i as int));
        assert(all.take(i + 1).last() == defs@[i as int]@);
        if resolve_paths(&defs[i], storage).is_some() {
            candidates.push(defs[i].duplicate());
            assert(defs_view(candidates@) =~= downloaded_defs(all.take(i as int), storage@).push(
                defs@[i as int]@,
            ));
        }
    }
    assert(all.take(defs@.len() as int) =~= all);
    proof {
        lemma_preview_index_bounds(defs_view(candidates@), language@);
    }
    match pick_preview_model(&candidates, language) {
        Some(def) => Some(def.id.clone()),
        None => None,
    }
}

/// What the settings window shows of a catalog model.
#[derive(Clone, Debug)]
pub struct ModelInfo {
    pub id: String,
    pub label: String,
    pub size_label: String,
    pub description: String,
    pub engine: Engine,
    pub languages: String,
    pub downloaded: bool,
}

pub struct ModelInfoModel {
    pub id: Seq<char>,
    pub label: Seq<char>,
    pub size_label: Seq<char>,
    pub description: Seq<char>,
    pub engine: Engine,
    pub languages: Seq<char>,
    pub downloaded: bool,
}

impl View for ModelInfo {
    type V = ModelInfoModel;

    open spec fn view(&self) -> ModelInfoModel {
        ModelInfoModel {
            id: self.id@,
            label: self.label@,
            size_label: self.size_label@,
            description: self.description@,
            engine: self.engine,
            languages: self.languages@,
            downloaded: self.downloaded,
        }
    }
}

pub open spec fn info_of(d: ModelDefModel, s: StorageModel) -> ModelInfoModel {
    ModelInfoModel {
        id: d.id,
        label: d.label,
        size_label: d.size_label,
        description: d.description,
        engine: d.engine,
        languages: d.languages,
        downloaded: resolved_paths(d, s) is Some,
    }
}

/// The catalog as the settings window lists it, with what is downloaded.
pub fn catalog_status(storage: &ModelStorage) -> (r: Vec<ModelInfo>)
    ensures
        r@.map_values(|m: ModelInfo| m@) == curated_models().map_values(
            |d: ModelDefModel| info_of(d, storage@),
        ),
{
    let defs = curated();
    let ghost all = curated_models();
    let mut out: Vec<ModelInfo> = Vec::new();
    for i in 0..defs.len()
        invariant
            all == curated_models(),
            defs_view(defs@) == all,
            out@.len() == i,
            forall|k: int| 0 <= k < i ==> (#[trigger] out@[k])@ == info_of(all[k], storage@),
    {
        let d = &defs[i];
        assert(all[i as int] == d@);
        let downloaded = resolve_paths(d, storage).is_some();
        out.push(
            ModelInfo {
                id: d.id.clone(),
                label: d.label.clone(),
                size_label: d.size_label.clone(),
                description: d.description.clone(),
                engine: d.engine,
                languages: d.languages.clone(),
                downloaded,
            },
        );
    }
    assert(out@.map_values(|m: ModelInfo| m@) =~= all.map_values(|d: ModelDefModel| info_of(d, storage@)));
    out
}

/// The file of the Silero VAD model used for live-preview speech
/// segmentation.
pub open spec fn vad_file() -> Seq<char> {
    "silero_vad.onnx"@
}

/// Where the VAD model is downloaded from.
pub open spec fn vad_url() -> Seq<char> {
    "https://github.com/k2-fsa/sherpa-onnx/releases/download/asr-models/silero_vad.onnx"@
}

/// The VAD model's file name.
pub fn vad_model_file() -> (r: String)
    ensures
        r@ == vad_file(),
{
    text("silero_vad.onnx")
}

/// The VAD model's download address.
pub fn vad_model_url() -> (r: String)
    ensures
        r@ == vad_url(),
{
    text("https://github.com/k2-fsa/sherpa-onnx/releases/download/asr-models/silero_vad.onnx")
}

/// Local path of the Silero VAD model, if it has been downloaded.
pub fn vad_model_path(storage: &ModelStorage) -> (r: Option<String>)
    ensures
        match storage@.dir {
            Some(dir) => if storage@.present.contains(vad_file()) {
                r matches Some(p) && p@ == join_path(dir, vad_file())
            } else {
                r is None
            },
            None => r is None,
        },
{
    match &storage.dir {
        Some(dir) => {
            let file = vad_model_file();
            if has_file(&storage.present, &file) {
                Some(join_dir(dir, &file))
            } else {
                None
            }
        },
        None => None,
    }
}

} // verus!

verus! {

/// The files of a downloaded model, which deleting it removes; or why it
/// cannot be deleted.
pub open spec fn deletion(model_id: Seq<char>, s: StorageModel) -> Result<Seq<Seq<char>>, Seq<char>> {
    match find_def(curated_models(), model_id) {
        None => Err("unknown model id: "@ + model_id),
        Some(d) => match resolved_paths(d, s) {
            None => Err("model is not downloaded"@),
            Some(ps) => Ok(ps),
        },
    }
}

/// The paths to remove to delete the model `model_id`.
pub fn files_to_delete(model_id: &str, storage: &ModelStorage) -> (r: Result<Vec<String>, String>)
    ensures
        match deletion(model_id@, storage@) {
            Ok(ps) => r matches Ok(v) && v@.map_values(|p: String| p@) == ps,
            Err(m) => r matches Err(e) && e@ == m,
        },
{
    let def = match def_by_id(model_id) {
        Some(d) => d,
        None => {
            let mut message = text("unknown model id: ");
            message.append(model_id);
            return Err(message);
        },
    };
    match resolve_paths(&def, storage) {
        Some(paths) => Ok(paths),
        None => Err(text("model is not downloaded")),
    }
}

/// One file to fetch: from `url` to `dest`; `base` bytes of the model come
/// before it, for progress reporting.
pub struct DownloadStep {
    pub url: String,
    pub dest: String,
    pub base: u64,
}

pub struct StepModel {
    pub url: Seq<char>,
    pub dest: Seq<char>,
    pub base: nat,
}

impl View for DownloadStep {
    type V = StepModel;

    open spec fn view(&self) -> StepModel {
        StepModel { url: self.url@, dest: self.dest@, base: self.base as nat }
    }
}

/// What downloading a model takes.
pub enum DownloadPlan {
    /// Every file is already there.
    AlreadyDownloaded,
    /// Fetch the missing files in order; `total_hint` is the expected size
    /// of the whole model (at least 1).
    Fetch { total_hint: u64, steps: Vec<DownloadStep> },
}

/// The missing files of `files` (from index `i` on), each with the size of
/// the files before it.
pub open spec fn missing_steps(files: Seq<ModelFileModel>, dir: Seq<char>, present: Seq<Seq<char>>, n: int) -> Seq<StepModel>
    decreases n,
{
    if n <= 0 {
        Seq::empty()
    } else {
        let prev = missing_steps(files, dir, present, n - 1);
        let f = files[n - 1];
        if present.contains(f.rel_path) {
            prev
        } else {
            prev.push(StepModel { url: f.url, dest: join_path(dir, f.rel_path), base: files_total(files.take(n - 1)) })
        }
    }
}

pub enum PlanModel {
    AlreadyDownloaded,
    Fetch { total_hint: nat, steps: Seq<StepModel> },
}

/// What downloading `model_id` takes, or why it cannot start.
pub open spec fn download_plan_for(model_id: Seq<char>, s: StorageModel) -> Result<PlanModel, Seq<char>> {
    match find_def(curated_models(), model_id) {
        None => Err("unknown model id: "@ + model_id),
        Some(d) => if resolved_paths(d, s) is Some {
            Ok(PlanModel::AlreadyDownloaded)
        } else {
            match s.dir {
                None => Err("models directory not initialized"@),
                Some(dir) => Ok(
                    PlanModel::Fetch {
                        total_hint: if files_total(d.files) == 0 {
                            1
                        } else {
                            files_total(d.files)
                        },
                        steps: missing_steps(d.files, dir, s.present, d.files.len() as int),
                    },
                ),
            }
        },
    }
}

pub open spec fn plan_view(p: DownloadPlan) -> PlanModel {
    match p {
        DownloadPlan::AlreadyDownloaded => PlanModel::AlreadyDownloaded,
        DownloadPlan::Fetch { total_hint, steps } => PlanModel::Fetch {
            total_hint: total_hint as nat,
            steps: steps@.map_values(|s: DownloadStep| s@),
        },
    }
}

proof fn lemma_find_def_in_catalog(ds: Seq<ModelDefModel>, id: Seq<char>)
    ensures
        match find_def(ds, id) {
            Some(d) => exists|i: int| 0 <= i < ds.len() && ds[i] == d,
            None => true,
        },
    decreases ds.len(),
{
    if ds.len() > 0 && ds[0].id != id {
        lemma_find_def_in_catalog(ds.drop_first(), id);
        match find_def(ds, id) {
            Some(d) => {
                let i = choose|i: int| 0 <= i < ds.drop_first().len() && ds.drop_first()[i] == d;
                assert(ds[i + 1] == d);
            },
            None => {},
        }
    }
}

/// Decides what downloading the model `model_id` takes.
pub fn download_plan(model_id: &str, storage: &ModelStorage) -> (r: Result<DownloadPlan, String>)
    ensures
        match download_plan_for(model_id@, storage@) {
            Ok(p) => r matches Ok(plan) && plan_view(plan) == p,
            Err(m) => r matches Err(e) && e@ == m,
        },
{
    let def = match def_by_id(model_id) {
        Some(d) => d,
        None => {
            let mut message = text("unknown model id: ");
            message.append(model_id);
            return Err(message);
        },
    };
    if resolve_paths(&def, storage).is_some() {
        return Ok(DownloadPlan::AlreadyDownloaded);
    }
    let dir = match &storage.dir {
        Some(d) => d,
        None => {
            return Err(text("models directory not initialized"));
        },
    };
    proof {
        lemma_curated_totals_fit();
        lemma_find_def_in_catalog(curated_models(), model_id@);
    }
    let total = def.bytes_hint_total();
    let total_hint = if total == 0 {
        1
    } else {
        total
    };
    let ghost fs = def@.files;
    let mut steps: Vec<DownloadStep> = Vec::new();
    let mut completed: u64 = 0;
    for i in 0..def.files.len()
        invariant
            fs == def@.files,
            files_total(fs) <= u64::MAX,
            storage@.dir == Some(dir@),
            completed == files_total(fs.take(i as int)),
            steps@.map_values(|s: DownloadStep| s@) == missing_steps(fs, dir@, storage@.present, i as int),
    {
        proof {
            lemma_files_total_prefix(fs, i + 1);
            assert(fs.take(i + 1).drop_last() =~= fs.take(i as int));
        }
        let file = &def.files[i];
        if !has_file(&storage.present, &file.rel_path) {
            steps.push(DownloadStep { url: file.url.clone(), dest: join_dir(dir, &file.rel_path), base: completed });
            assert(steps@.map_values(|s: DownloadStep| s@) =~= missing_steps(fs, dir@, storage@.present, i as int).push(
                StepModel { url: fs[i as int].url, dest: join_path(dir@, fs[i as int].rel_path), base: files_total(fs.take(i as int)) },
            ));
        }
        completed = completed + file.bytes_hint;
    }
    Ok(DownloadPlan::Fetch { total_hint, steps })
}

} // verus!

verus! {

/// A model found by id carries that id.
pub proof fn law_found_model_has_the_id(ds: Seq<ModelDefModel>, id: Seq<char>)
    ensures
        match find_def(ds, id) {
            Some(d) => d.id == id,
            None => forall|i: int| 0 <= i < ds.len() ==> (#[trigger] ds[i]).id != id,
        },
    decreases ds.len(),
{
    if ds.len() > 0 && ds[0].id != id {
        law_found_model_has_the_id(ds.drop_first(), id);
        if find_def(ds, id) is None {
            assert forall|i: int| 0 <= i < ds.len() implies (#[trigger] ds[i]).id != id by {
                if i > 0 {
                    assert(ds[i] == ds.drop_first()[i - 1]);
                }
            }
        }
    }
}

} // verus!

verus! {

/// The live-preview choice follows its preference order: it supports the
/// language and is light enough; no eligible candidate sorts before it;
/// and it sorts strictly before every eligible candidate listed earlier
/// (ties go to the first listed). `None` means no candidate is eligible.
pub proof fn law_preview_choice_is_best(ds: Seq<ModelDefModel>, language: Seq<char>)
    ensures
        match preview_index(ds, language) {
            Some(i) => {
                &&& 0 <= i < ds.len()
                &&& preview_eligible(ds[i], language)
                &&& forall|j: int|
                    0 <= j < ds.len() && preview_eligible(#[trigger] ds[j], language) ==> !preview_before(
                        ds[j],
                        ds[i],
                    )
                &&& forall|j: int|
                    0 <= j < i && preview_eligible(#[trigger] ds[j], language) ==> preview_before(
                        ds[i],
                        ds[j],
                    )
            },
            None => forall|j: int| 0 <= j < ds.len() ==> !preview_eligible(#[trigger] ds[j], language),
        },
    decreases ds.len(),
{
    if ds.len() > 0 {
        let d = ds.drop_last();
        law_preview_choice_is_best(d, language);
        let last = ds.len() - 1;
        assert forall|j: int| 0 <= j < d.len() implies #[trigger] d[j] == ds[j] by {}
        match preview_index(d, language) {
            Some(p) => {
                assert(d[p] == ds[p]);
                if preview_eligible(ds[last], language) && preview_before(ds[last], ds[p]) {
                    assert forall|j: int|
                        0 <= j < ds.len() && preview_eligible(#[trigger] ds[j], language) implies !preview_before(
                        ds[j],
                        ds[last],
                    ) by {
                        if j < last {
                            assert(d[j] == ds[j]);
                            assert(!preview_before(d[j], d[p]));
                        }
                    }
                    assert forall|j: int|
                        0 <= j < last && preview_eligible(#[trigger] ds[j], language) implies preview_before(
                        ds[last],
                        ds[j],
                    ) by {
                        assert(d[j] == ds[j]);
                        assert(!preview_before(d[j], d[p]));
                    }
                } else {
                    assert forall|j: int|
                        0 <= j < ds.len() && preview_eligible(#[trigger] ds[j], language) implies !preview_before(
                        ds[j],
                        ds[p],
                    ) by {
                        if j < last {
                            assert(d[j] == ds[j]);
                        }
                    }
                    assert forall|j: int|
                        0 <= j < p && preview_eligible(#[trigger] ds[j], language) implies preview_before(
                        ds[p],
                        ds[j],
                    ) by {
                        assert(d[j] == ds[j]);
                    }
                }
            },
            None => {
                assert forall|j: int| 0 <= j < last implies !preview_eligible(#[trigger] ds[j], language) by {
                    assert(d[j] == ds[j]);
                }
            },
        }
    }
}

} // verus!

verus! {

/// The step that fetches file `j` of `files` into `dir`: its progress
/// starts after the size hints of all files before it, fetched now or
/// already on disk.
pub open spec fn fetch_step(files: Seq<ModelFileModel>, dir: Seq<char>, j: int) -> StepModel {
    StepModel { url: files[j].url, dest: join_path(dir, files[j].rel_path), base: files_total(files.take(j)) }
}

/// The positions `0..n` of the files of `files` that are not in `present`.
pub open spec fn missing_positions(files: Seq<ModelFileModel>, present: Seq<Seq<char>>, n: int) -> Seq<int> {
    Seq::new(n as nat, |j: int| j).filter(|j: int| !present.contains(files[j].rel_path))
}

proof fn lemma_missing_steps_fetch_missing_files(
    files: Seq<ModelFileModel>,
    dir: Seq<char>,
    present: Seq<Seq<char>>,
    n: int,
)
    requires
        0 <= n <= files.len(),
    ensures
        missing_steps(files, dir, present, n) == missing_positions(files, present, n).map_values(
            |j: int| fetch_step(files, dir, j),
        ),
    decreases n,
{
    let pred = |j: int| !present.contains(files[j].rel_path);
    let f = |j: int| fetch_step(files, dir, j);
    if n == 0 {
        assert(Seq::new(0nat, |j: int| j) =~= Seq::<int>::empty());
        assert(Seq::<int>::empty().filter(pred) =~= Seq::<int>::empty());
        assert(missing_positions(files, present, 0).map_values(f) =~= Seq::<StepModel>::empty());
    } else {
        lemma_missing_steps_fetch_missing_files(files, dir, present, n - 1);
        let idx = Seq::new((n - 1) as nat, |j: int| j);
        assert(Seq::new(n as nat, |j: int| j) =~= idx.push(n - 1));
        idx.lemma_filter_push(n - 1, pred);
        let prev = idx.filter(pred);
        assert(missing_positions(files, present, n - 1) == prev);
        if pred(n - 1) {
            assert(missing_positions(files, present, n) == prev.push(n - 1));
            assert(prev.push(n - 1).map_values(f) =~= prev.map_values(f).push(f(n - 1)));
        } else {
            assert(missing_positions(files, present, n) == prev);
        }
    }
}

/// A download fetches exactly the files of the model that are not on disk,
/// in the model's order, into the models directory, and each step's
/// progress starts at the sum of the size hints of every file before it in
/// the model, whether that file was fetched earlier in the same download or
/// was already present. The expected total is the size of the whole model.
pub proof fn law_download_steps_count_earlier_files(model_id: Seq<char>, s: StorageModel)
    ensures
        download_plan_for(model_id, s) matches Ok(PlanModel::Fetch { total_hint, steps }) ==> {
            &&& find_def(curated_models(), model_id) is Some
            &&& s.dir is Some
            &&& total_hint == if files_total(find_def(curated_models(), model_id)->Some_0.files) == 0 {
                1
            } else {
                files_total(find_def(curated_models(), model_id)->Some_0.files)
            }
            &&& steps == missing_positions(
                find_def(curated_models(), model_id)->Some_0.files,
                s.present,
                find_def(curated_models(), model_id)->Some_0.files.len() as int,
            ).map_values(|j: int| fetch_step(find_def(curated_models(), model_id)->Some_0.files, s.dir->Some_0, j))
        },
{
    match find_def(curated_models(), model_id) {
        Some(d) => match s.dir {
            Some(dir) => lemma_missing_steps_fetch_missing_files(d.files, dir, s.present, d.files.len() as int),
            None => {},
        },
        None => {},
    }
}

/// Each entry of the catalog listing describes the catalog model at the
/// same position: its id, label, size label, description, engine and
/// languages, and whether that model's id counts as downloaded.
pub proof fn law_catalog_lists_each_model(s: StorageModel)
    ensures
        curated_models().map_values(|d: ModelDefModel| info_of(d, s)).len() == curated_models().len(),
        forall|i: int|
            0 <= i < curated_models().len() ==> {
                let info = curated_models().map_values(|d: ModelDefModel| info_of(d, s))[i];
                let d = #[trigger] curated_models()[i];
                &&& info.id == d.id
                &&& info.label == d.label
                &&& info.size_label == d.size_label
                &&& info.description == d.description
                &&& info.engine == d.engine
                &&& info.languages == d.languages
                &&& info.downloaded == downloaded(d.id, s)
            },
{
    lemma_curated_ids_distinct();
    assert forall|i: int| 0 <= i < curated_models().len() implies downloaded(
        #[trigger] curated_models()[i].id,
        s,
    ) == (resolved_paths(curated_models()[i], s) is Some) by {
        lemma_find_def_of_member(curated_models(), i);
    }
}

} // verus!
