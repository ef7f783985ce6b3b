use rag_core::config::EmbeddingModel;
use rag_core::deploy::{
    export_model_to_huggingface, generate_docker_deployment, generate_fastapi_endpoint, APIConfig,
    DockerConfig, ExportConfig,
};
use rag_core::embedding::{
    calculate_content_hash, expand_digest, hash_embedding_seed, local_features, prepare_embedding,
    EmbeddingInput,
};
use rag_core::ingest::{
    classify_extension, extract_csv_text, extract_docx_text, extracted_text, file_kind,
    new_document, processing_result, FileKind,
};

const ABC_SHA256: &str = "ba7816bf8f01cfea414140de5dae2223b00361a396177a9cb410ff61f20015ad";

fn hex_bytes(s: &str) -> Vec<u8> {
    (0..s.len()).step_by(2).map(|i| u8::from_str_radix(&s[i..i + 2], 16).unwrap()).collect()
}

fn strings(xs: &[&str]) -> Vec<String> {
    xs.iter().map(|x| x.to_string()).collect()
}

#[test]
fn content_hash_is_hex_sha256() {
    assert_eq!(calculate_content_hash("abc"), ABC_SHA256);
    assert_eq!(
        calculate_content_hash(""),
        "e3b0c44298fc1c149afbf4c8996fb92427ae41e4649b934ca495991b7852b855"
    );
}

#[test]
fn hashed_seed_cycles_the_first_24_digest_bytes() {
    let digest = hex_bytes(ABC_SHA256);
    let seed = hash_embedding_seed("abc");
    assert_eq!(seed.len(), 384);
    for (i, b) in seed.iter().enumerate() {
        assert_eq!(*b, digest[i % 24]);
    }
    assert_eq!(hash_embedding_seed("abc"), seed);
    assert_eq!(digest.len(), 32);
    assert_ne!(hash_embedding_seed("abd"), seed);
}

#[test]
fn short_digests_cycle_what_they_have() {
    assert_eq!(expand_digest(&vec![]), Vec::<u8>::new());
    let e = expand_digest(&vec![1, 2, 3]);
    assert_eq!(e.len(), 384);
    assert_eq!(&e[..7], &[1, 2, 3, 1, 2, 3, 1]);
}

#[test]
fn local_features_count_bytes_words_and_low_bytes() {
    let f = local_features("aA a");
    assert_eq!(f.byte_len, 4);
    assert_eq!(f.word_count, 2);
    assert_eq!(f.char_counts.len(), 256);
    assert_eq!(f.char_counts[97], 2);
    assert_eq!(f.char_counts[65], 1);
    assert_eq!(f.char_counts[32], 1);
    assert_eq!(f.char_counts.iter().sum::<usize>(), 4);
    let g = local_features("\u{e9} \u{100}");
    assert_eq!(g.byte_len, 5);
    assert_eq!(g.word_count, 2);
    assert_eq!(g.char_counts[233], 1);
    assert_eq!(g.char_counts[0], 1);
}

#[test]
fn backends_are_dispatched_by_model() {
    let hosted = EmbeddingModel::HuggingFace { model_name: "m".to_string() };
    match prepare_embedding("abc", &hosted) {
        EmbeddingInput::Hashed { seed } => assert_eq!(seed, hash_embedding_seed("abc")),
        other => panic!("unexpected {:?}", other),
    }
    let remote = EmbeddingModel::OpenAI { api_key: "SECRET-REDACTED".to_string(), model: "e3".to_string() };
    match prepare_embedding("abc", &remote) {
        EmbeddingInput::Remote { text, api_key, model } => {
            assert_eq!((text.as_str(), api_key.as_str(), model.as_str()), ("abc", "SECRET-REDACTED", "e3"))
        }
        other => panic!("unexpected {:?}", other),
    }
    let local = EmbeddingModel::Local { model_path: "/m".to_string() };
    match prepare_embedding("a b", &local) {
        EmbeddingInput::Local { features } => assert_eq!(features.word_count, 2),
        other => panic!("unexpected {:?}", other),
    }
}

#[test]
fn extensions_are_classified_in_any_case() {
    let (k, lowered) = file_kind("PDF");
    assert_eq!(k, FileKind::Pdf);
    assert_eq!(lowered, "pdf");
    assert_eq!(file_kind("Md").0, FileKind::PlainText);
    assert_eq!(file_kind("DocX").0, FileKind::Docx);
    assert_eq!(file_kind("csv").0, FileKind::Csv);
    assert_eq!(file_kind("").0, FileKind::Unsupported);
    assert_eq!(classify_extension(&"txt".to_string()), FileKind::PlainText);
    assert_eq!(classify_extension(&"TXT".to_string()), FileKind::Unsupported);
}

#[test]
fn extraction_failures_become_placeholders() {
    assert_eq!(extracted_text(FileKind::PlainText, "txt", Ok("hi".to_string())), Ok("hi".to_string()));
    assert_eq!(extracted_text(FileKind::PlainText, "txt", Err("gone".to_string())), Err("gone".to_string()));
    assert_eq!(
        extracted_text(FileKind::Pdf, "pdf", Err("bad".to_string())),
        Ok("Could not extract text from PDF".to_string())
    );
    assert_eq!(
        extracted_text(FileKind::Docx, "docx", Err("bad zip".to_string())),
        Ok("Could not extract text from DOCX: bad zip".to_string())
    );
    assert_eq!(
        extracted_text(FileKind::Csv, "csv", Err("row 3".to_string())),
        Ok("Could not extract text from CSV: row 3".to_string())
    );
    assert_eq!(
        extracted_text(FileKind::Unsupported, "exe", Ok(String::new())),
        Ok("Unsupported file type: exe".to_string())
    );
}

#[test]
fn csv_rows_are_pipe_joined_lines() {
    let header = Some(strings(&["name", "age"]));
    let rows = vec![strings(&["ann", "3"]), strings(&["bo", "40"])];
    assert_eq!(extract_csv_text(&header, &rows), "name | age\nann | 3\nbo | 40\n");
    assert_eq!(extract_csv_text(&None, &vec![strings(&["x"])]), "x\n");
}

#[test]
fn docx_paragraphs_become_lines() {
    let paragraphs = vec![strings(&["Hel", "lo"]), vec![], strings(&["World"])];
    assert_eq!(extract_docx_text(&paragraphs), "Hello\n\nWorld\n");
}

#[test]
fn new_documents_fall_back_on_file_name_and_unknown_type() {
    let d = new_document(
        "id1".to_string(),
        None,
        Some("notes.txt".to_string()),
        None,
        "abc".to_string(),
        "/x/notes.txt".to_string(),
        42,
    );
    assert_eq!(d.title, "notes.txt");
    assert_eq!(d.file_type, "unknown");
    assert_eq!(d.content_hash, ABC_SHA256);
    assert_eq!(d.file_path.as_deref(), Some("/x/notes.txt"));
    assert_eq!((d.created_at, d.updated_at), (42, 42));
    let e = new_document("i".to_string(), Some("T".to_string()), None, Some("md".to_string()), String::new(), "p".to_string(), 0);
    assert_eq!(e.title, "T");
    assert_eq!(e.file_type, "md");
    let f = new_document("i".to_string(), None, None, None, String::new(), "p".to_string(), 0);
    assert_eq!(f.title, "Unknown");
}

#[test]
fn processing_result_reports_success() {
    let r = processing_result("Doc", 3, 12);
    assert!(r.success);
    assert_eq!(r.message, "Successfully processed document: Doc");
    assert_eq!((r.chunks_created, r.processing_time_ms), (3, 12));
}

#[test]
fn deployment_reports() {
    let export = ExportConfig {
        model_path: "m".to_string(),
        output_dir: "/out".to_string(),
        model_name: "tiny".to_string(),
        export_format: "safetensors".to_string(),
        include_tokenizer: true,
        push_to_hub: true,
        hub_token: None,
        hub_repo_name: None,
        model_description: String::new(),
    };
    assert_eq!(
        export_model_to_huggingface(&export),
        "Model 'tiny' exported successfully to HuggingFace format at '/out'\nModel pushed to HuggingFace Hub: unknown"
    );
    let api = APIConfig {
        model_path: "m".to_string(),
        api_name: "svc".to_string(),
        port: 8080,
        host: "0.0.0.0".to_string(),
        enable_cors: false,
        max_workers: 2,
        auth_token: None,
    };
    assert_eq!(
        generate_fastapi_endpoint(&api, "/api"),
        "FastAPI endpoint 'svc' generated successfully at '/api'\nAPI will run on 0.0.0.0:8080"
    );
    let mut api0 = api.clone();
    api0.port = 0;
    assert!(generate_fastapi_endpoint(&api0, "d").ends_with(":0"));
    let docker = DockerConfig {
        image_name: "img".to_string(),
        tag: "v1".to_string(),
        base_image: "python".to_string(),
        port: 80,
        include_cuda: false,
        model_path: "m".to_string(),
    };
    assert_eq!(
        generate_docker_deployment(&docker, "/d"),
        "Docker deployment 'img:v1' generated successfully at '/d'"
    );
}
