use std::path::Path;

use tweet_scrolls::utils::file_splitter::{
    check_input_size, chunk_file_name, determine_filename_parts, parse_size_string,
    parse_size_units, split_file, try_parse_size_string, validate_config, ChunkInfo, SizeStringError,
    SplitConfig, SplitError, SplitResult,
};

#[test]
fn test_split_config_default() {
    let config = SplitConfig::default();
    assert_eq!(config.chunk_size, 1024 * 1024);
    assert_eq!(config.digits, 3);
    assert!(config.output_dir.is_none());
    assert!(config.prefix.is_none());
}

#[test]
fn test_parse_size_string() {
    assert_eq!(parse_size_string("1024"), Ok(1024));
    assert_eq!(parse_size_string("1K"), Ok(1024));
    assert_eq!(parse_size_string("1M"), Ok(1024 * 1024));
    assert_eq!(parse_size_string("1G"), Ok(1024 * 1024 * 1024));
    assert_eq!(parse_size_string("2M"), Ok(2 * 1024 * 1024));

    // Test with lowercase
    assert_eq!(parse_size_string("1k"), Ok(1024));
    assert_eq!(parse_size_string("1m"), Ok(1024 * 1024));

    // Test with whitespace
    assert_eq!(parse_size_string(" 1M "), Ok(1024 * 1024));
}

#[test]
fn test_parse_size_string_invalid() {
    assert!(parse_size_string("").is_err());
    assert!(parse_size_string("abc").is_err());
    assert!(parse_size_string("1X").is_err());
}

#[test]
fn test_validate_config_invalid_chunk_size() {
    let config = SplitConfig {
        chunk_size: 0,
        ..Default::default()
    };
    let path = Path::new(&config.input_path);
    assert!(validate_config(&config, path.exists(), path.is_file()).is_err());
}

#[test]
fn test_validate_config_nonexistent_file() {
    let config = SplitConfig {
        input_path: "nonexistent.txt".to_string(),
        ..Default::default()
    };
    let path = Path::new(&config.input_path);
    assert!(validate_config(&config, path.exists(), path.is_file()).is_err());
}

#[test]
fn size_errors_name_their_cause() {
    assert_eq!(parse_size_string("   "), Err(SizeStringError::Empty));
    assert_eq!(parse_size_string("abc"), Err(SizeStringError::InvalidNumber(String::new())));
    assert_eq!(parse_size_string("1X"), Err(SizeStringError::InvalidUnit("X".to_string())));
    assert_eq!(parse_size_string("5kb"), Ok(5 * 1024));
    assert_eq!(parse_size_string("3t"), Ok(3 * 1024 * 1024 * 1024 * 1024));
    assert_eq!(parse_size_string("7b"), Ok(7));
    assert_eq!(parse_size_units("12"), Ok(12));
}

#[test]
fn oversized_sizes_are_reported() {
    assert_eq!(
        try_parse_size_string("99999999999999999999999"),
        Some(Err(SizeStringError::InvalidNumber("99999999999999999999999".to_string())))
    );
    assert_eq!(try_parse_size_string("20000000T"), None);
    assert_eq!(try_parse_size_string(" 2k "), Some(Ok(2048)));
    assert_eq!(try_parse_size_string("2Q"), Some(Err(SizeStringError::InvalidUnit("Q".to_string()))));
}

#[test]
fn config_checks_come_in_order() {
    let zero_digits = SplitConfig {
        input_path: "in.txt".to_string(),
        digits: 0,
        ..Default::default()
    };
    assert_eq!(validate_config(&zero_digits, true, true), Err(SplitError::InvalidDigits));
    let many_digits = SplitConfig {
        input_path: "in.txt".to_string(),
        digits: 11,
        ..Default::default()
    };
    assert_eq!(validate_config(&many_digits, true, true), Err(SplitError::InvalidDigits));
    let config = SplitConfig {
        input_path: "in.txt".to_string(),
        ..Default::default()
    };
    assert_eq!(
        validate_config(&config, false, false),
        Err(SplitError::MissingInput("in.txt".to_string()))
    );
    assert_eq!(
        validate_config(&config, true, false),
        Err(SplitError::NotAFile("in.txt".to_string()))
    );
    assert_eq!(validate_config(&config, true, true), Ok(()));
    assert_eq!(check_input_size(0), Err(SplitError::EmptyInput));
    assert_eq!(check_input_size(13), Ok(()));
}

#[test]
fn split_error_messages() {
    assert_eq!(SplitError::InvalidChunkSize.to_string(), "Chunk size must be greater than 0");
    assert_eq!(SplitError::InvalidDigits.to_string(), "Digits must be between 1 and 10");
    assert_eq!(
        SplitError::MissingInput("a.txt".to_string()).to_string(),
        "Input file does not exist: a.txt"
    );
    assert_eq!(
        SplitError::NotAFile("dir".to_string()).to_string(),
        "Input path is not a file: dir"
    );
    assert_eq!(SplitError::EmptyInput.to_string(), "Input file is empty");
}

#[test]
fn chunk_names_keep_the_extension() {
    let config = SplitConfig {
        input_path: "document.txt".to_string(),
        ..Default::default()
    };
    let (base, extension) = determine_filename_parts(&config, Some("document.txt"));
    assert_eq!(base, "document");
    assert_eq!(extension, ".txt");
    assert_eq!(chunk_file_name(&base, 1, &extension, config.digits), "document-001.txt");

    let (base, extension) = determine_filename_parts(&config, Some("archive.tar.gz"));
    assert_eq!(base, "archive");
    assert_eq!(extension, ".tar.gz");
    assert_eq!(chunk_file_name(&base, 1, &extension, 3), "archive-001.tar.gz");

    let custom = SplitConfig {
        input_path: "test.txt".to_string(),
        prefix: Some("custom".to_string()),
        ..Default::default()
    };
    let (base, extension) = determine_filename_parts(&custom, Some("test.txt"));
    assert_eq!(chunk_file_name(&base, 12, &extension, 3), "custom-012");

    let (base, extension) = determine_filename_parts(&config, None);
    assert_eq!(base, "chunk");
    assert_eq!(extension, "");
    assert_eq!(chunk_file_name(&base, 1234, &extension, 2), "chunk-1234");
}

#[test]
fn split_report_lists_chunks() {
    let chunk = ChunkInfo { path: "out/a-001.txt".to_string(), size: 5, number: 1 };
    assert_eq!(chunk.to_string(), "Chunk 1: out/a-001.txt (5 bytes)");
    let result = SplitResult {
        input_path: "a.txt".to_string(),
        output_dir: "out".to_string(),
        chunk_size: 5,
        chunks: vec![chunk],
        total_size: 5,
    };
    let report = result.to_string();
    assert_eq!(
        report,
        "📄 Split 'a.txt' into 1 chunks\n📁 Output directory: out\n📊 Total size: 5 bytes\n🔢 Chunk size: 5 bytes\n\n📋 Created chunks:\n  Chunk 1: out/a-001.txt (5 bytes)\n"
    );
}

fn plan(config: &SplitConfig, dir: &str, file_name: &str, content: &[u8]) -> SplitResult {
    let input_path = format!("{dir}/{file_name}");
    split_file(config, true, true, &input_path, dir, Some(file_name), content.len() as u64)
        .expect("a valid configuration splits")
}

#[test]
fn test_split_small_file() {
    let config = SplitConfig {
        input_path: "test.txt".to_string(),
        chunk_size: 5,
        ..Default::default()
    };

    let result = plan(&config, "/tmp/split", "test.txt", b"Hello, World!");

    assert_eq!(result.chunks.len(), 3); // "Hello", ", Wor", "ld!"
    assert_eq!(result.chunks[0].size, 5);
    assert_eq!(result.chunks[1].size, 5);
    assert_eq!(result.chunks[2].size, 3);
    assert_eq!(result.total_size, 13);
}

#[test]
fn test_split_with_extension_preservation() {
    let config = SplitConfig {
        input_path: "document.txt".to_string(),
        chunk_size: 4,
        ..Default::default()
    };

    let result = plan(&config, "/tmp/split", "document.txt", b"test content");

    // Should create document-001.txt, document-002.txt, document-003.txt
    assert_eq!(result.chunks.len(), 3);
    let name = Path::new(&result.chunks[0].path).file_name().unwrap().to_str().unwrap().to_string();
    assert!(name.ends_with(".txt"));
    assert!(name.starts_with("document-001"));
}

#[test]
fn test_split_with_custom_prefix() {
    let config = SplitConfig {
        input_path: "test.txt".to_string(),
        chunk_size: 4,
        prefix: Some("custom".to_string()),
        ..Default::default()
    };

    let result = plan(&config, "/tmp/split", "test.txt", b"test content");

    let name = Path::new(&result.chunks[0].path).file_name().unwrap().to_str().unwrap().to_string();
    assert!(name.starts_with("custom-001"));
}

#[test]
fn test_split_with_custom_output_dir() {
    let config = SplitConfig {
        input_path: "test.txt".to_string(),
        chunk_size: 4,
        output_dir: Some("/tmp/split/chunks".to_string()),
        ..Default::default()
    };

    let result = plan(&config, "/tmp/split/chunks", "test.txt", b"test content");

    assert_eq!(result.output_dir, "/tmp/split/chunks");
    assert!(Path::new(&result.chunks[0].path).starts_with("/tmp/split/chunks"));
}

#[test]
fn test_empty_file_handling() {
    let config = SplitConfig {
        input_path: "empty.txt".to_string(),
        chunk_size: 1024,
        ..Default::default()
    };

    let result = split_file(&config, true, true, "/tmp/empty.txt", "/tmp", Some("empty.txt"), 0);

    assert!(result.is_err());
}

#[test]
fn test_complex_extension_preservation() {
    let config = SplitConfig {
        input_path: "archive.tar.gz".to_string(),
        chunk_size: 5,
        ..Default::default()
    };

    let result = plan(&config, "/tmp/split", "archive.tar.gz", b"compressed data");

    let name = Path::new(&result.chunks[0].path).file_name().unwrap().to_str().unwrap().to_string();
    assert!(name.ends_with(".tar.gz"));
    assert!(name.starts_with("archive-001"));
}

#[test]
fn chunks_cover_the_file_exactly() {
    let config = SplitConfig {
        input_path: "a.bin".to_string(),
        chunk_size: 4,
        digits: 2,
        ..Default::default()
    };
    let result = plan(&config, "/d", "a.bin", b"0123456789ab");
    assert_eq!(
        result.chunks.iter().map(|c| (c.path.as_str(), c.size, c.number)).collect::<Vec<_>>(),
        vec![("/d/a-01.bin", 4, 1), ("/d/a-02.bin", 4, 2), ("/d/a-03.bin", 4, 3)]
    );
    let total: u64 = result.chunks.iter().map(|c| c.size).sum();
    assert_eq!(total, result.total_size);
    assert_eq!(result.chunk_size, 4);
    assert_eq!(result.input_path, "/d/a.bin");
}

#[test]
fn split_reports_configuration_errors_first() {
    let config = SplitConfig {
        input_path: "missing.txt".to_string(),
        ..Default::default()
    };
    assert_eq!(
        split_file(&config, false, false, "missing.txt", "/d", Some("missing.txt"), 0).err(),
        Some(SplitError::MissingInput("missing.txt".to_string()))
    );
    let zero = SplitConfig { chunk_size: 0, ..Default::default() };
    assert_eq!(
        split_file(&zero, true, true, "x", "/d", Some("x"), 10).err(),
        Some(SplitError::InvalidChunkSize)
    );
}
