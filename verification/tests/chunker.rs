use stack_diagnostics::chunker::{find_char_boundary, find_next_char_boundary, Chunk, ChunkerConfig, SemanticChunker};

#[test]
fn test_chunker_default() {
    let chunker = SemanticChunker::default();
    assert_eq!(chunker.chunk_size(), 512);
    assert_eq!(chunker.chunk_overlap(), 64);
    assert!(!chunker.separators().is_empty());
}

#[test]
fn test_split_short_text() {
    let chunker = SemanticChunker::default();
    let text = "Short text";
    let chunks = chunker.split(text);

    assert_eq!(chunks.len(), 1);
    assert_eq!(chunks[0].content, "Short text");
    assert_eq!(chunks[0].start_line, 1);
    assert_eq!(chunks[0].end_line, 1);
}

#[test]
fn test_split_markdown_headers() {
    let chunker = SemanticChunker::new(100, 10, vec!["\n## ".to_string()]);
    let text = "# Title\n\nIntro paragraph.\n\n## Section 1\n\nContent 1.\n\n## Section 2\n\nContent 2.";

    let chunks = chunker.split(text);

    assert!(chunks.len() >= 2);
}

#[test]
fn test_split_rust_code() {
    let chunker = SemanticChunker::new(200, 20, vec!["\nfn ".to_string(), "\n\n".to_string()]);
    let text = "\nfn foo() {\n    println!(\"foo\");\n}\n\nfn bar() {\n    println!(\"bar\");\n}\n\nfn baz() {\n    println!(\"baz\");\n}\n";

    let chunks = chunker.split(text);

    assert!(!chunks.is_empty());
    for chunk in &chunks {
        assert!(!chunk.content.is_empty());
    }
}

#[test]
fn test_chunk_overlap() {
    let chunker = SemanticChunker::new(50, 10, vec![" ".to_string()]);
    let text = "word1 word2 word3 word4 word5 word6 word7 word8 word9 word10 word11 word12";

    let chunks = chunker.split(text);

    if chunks.len() > 1 {
        for chunk in &chunks {
            assert!(chunk.content.len() <= chunker.chunk_size() + 20);
        }
    }
}

#[test]
fn test_chunk_line_tracking() {
    let chunker = SemanticChunker::new(50, 5, vec!["\n".to_string()]);
    let text = "Line 1\nLine 2\nLine 3\nLine 4\nLine 5";

    let chunks = chunker.split(text);

    assert_eq!(chunks[0].start_line, 1);
}

#[test]
fn test_chunk_content_hash_deterministic() {
    let chunk1 =
        Chunk { content: "test content".to_string(), start_offset: 0, end_offset: 12, start_line: 1, end_line: 1 };
    let chunk2 =
        Chunk { content: "test content".to_string(), start_offset: 100, end_offset: 112, start_line: 5, end_line: 5 };

    assert_eq!(chunk1.content_hash(), chunk2.content_hash());
}

#[test]
fn test_chunk_content_hash_different() {
    let chunk1 = Chunk { content: "content 1".to_string(), start_offset: 0, end_offset: 9, start_line: 1, end_line: 1 };
    let chunk2 = Chunk { content: "content 2".to_string(), start_offset: 0, end_offset: 9, start_line: 1, end_line: 1 };

    assert_ne!(chunk1.content_hash(), chunk2.content_hash());
}

fn reference_hash(content: &str) -> [u8; 32] {
    let mut hash = [0u8; 32];
    let mut state: u64 = 0xcbf2_9ce4_8422_2325;
    for &byte in content.as_bytes() {
        state ^= byte as u64;
        state = state.wrapping_mul(0x0100_0000_01b3);
    }
    for i in 0..4 {
        let chunk = state.wrapping_add(i as u64).to_le_bytes();
        hash[i * 8..(i + 1) * 8].copy_from_slice(&chunk);
    }
    hash
}

#[test]
fn content_hash_is_the_hash_of_the_bytes() {
    for content in ["", "a", "test content", "héllo wörld ✓", "\n\n## heading\n"] {
        let chunk = Chunk { content: content.to_string(), start_offset: 0, end_offset: 0, start_line: 1, end_line: 1 };
        assert_eq!(chunk.content_hash(), reference_hash(content), "{:?}", content);
    }
    let empty = Chunk { content: String::new(), start_offset: 0, end_offset: 0, start_line: 1, end_line: 1 };
    assert_eq!(&empty.content_hash()[..8], &0xcbf2_9ce4_8422_2325u64.to_le_bytes());
    assert_eq!(&empty.content_hash()[8..16], &0xcbf2_9ce4_8422_2326u64.to_le_bytes());
}

#[test]
fn test_empty_text() {
    let chunker = SemanticChunker::default();
    let chunks = chunker.split("");
    assert!(chunks.is_empty());
}

#[test]
fn test_whitespace_only() {
    let chunker = SemanticChunker::default();
    let chunks = chunker.split("   \n\n   \t   ");
    assert!(chunks.is_empty());
    assert!(chunker.split("\u{a0}\u{2003} \u{3000}\u{85}\u{1680}\u{2028}\u{205f}").is_empty());
    assert_eq!(chunker.split(" \u{200b} ").len(), 1);
}

#[test]
fn test_config_round_trip() {
    let chunker = SemanticChunker::new(256, 32, vec!["\n".to_string()]);
    let config = chunker.config();

    assert_eq!(config.chunk_size, 256);
    assert_eq!(config.chunk_overlap, 32);
    assert_eq!(config.separators, vec!["\n".to_string()]);
    let again = SemanticChunker::from_config(&ChunkerConfig::new(256, 32, Vec::new()));
    assert_eq!(again.chunk_size(), 256);
    assert_eq!(again.chunk_overlap(), 32);
    assert_eq!(again.separators(), &SemanticChunker::default_separators());
    assert_eq!(again.separators().len(), 13);
    assert_eq!(again.separators()[0], "\n## ");
    assert_eq!(again.separators()[12], " ");
}

#[test]
fn test_large_document_chunking() {
    let chunker = SemanticChunker::new(100, 20, SemanticChunker::default_separators());

    let mut text = String::new();
    for i in 0..50 {
        text.push_str(&format!("\n## Section {}\n\nThis is paragraph {} with some content.\n", i, i));
    }

    let chunks = chunker.split(&text);

    assert!(chunks.len() > 1);

    for chunk in &chunks {
        assert!(!chunk.content.trim().is_empty());
    }
}

/// The splitting rule written with the standard library's string functions.
fn reference_split(size: usize, overlap: usize, separators: &[String], text: &str) -> Vec<Chunk> {
    let floor = |pos: usize| {
        if pos >= text.len() {
            return text.len();
        }
        let mut b = pos;
        while b > 0 && !text.is_char_boundary(b) {
            b -= 1;
        }
        b
    };
    let ceil = |pos: usize| {
        if pos >= text.len() {
            return text.len();
        }
        let mut b = pos;
        while b < text.len() && !text.is_char_boundary(b) {
            b += 1;
        }
        b
    };
    let mut chunks = Vec::new();
    let mut current = 0;
    while current < text.len() {
        let target_end = floor((current + size).min(text.len()));
        let mut end = target_end;
        if text.len() <= target_end {
            end = text.len();
        } else {
            let region = &text[current..target_end];
            for separator in separators {
                if let Some(pos) = region.rfind(separator.as_str()) {
                    if pos > 0 {
                        end = current + pos + separator.len();
                        break;
                    }
                }
            }
        }
        let content = &text[current..end];
        if !content.trim().is_empty() {
            let start_line = text[..current].matches('\n').count() + 1;
            chunks.push(Chunk {
                content: content.to_string(),
                start_offset: current,
                end_offset: end,
                start_line,
                end_line: start_line + content.matches('\n').count(),
            });
        }
        let advance = if end - current > overlap { end - current - overlap } else { end - current };
        current = ceil(current + advance.max(1));
    }
    chunks
}

#[test]
fn split_follows_the_rule_on_many_texts() {
    let mut texts: Vec<String> = vec![
        "word1 word2 word3 word4 word5 word6 word7 word8 word9 word10 word11 word12".to_string(),
        "Line 1\nLine 2\r\nLine 3\n\n\nLine 4\nLine 5".to_string(),
        "# Title\n\nIntro paragraph.\n\n## Section 1\n\nContent 1.\n\n## Section 2\n\nContent 2.".to_string(),
        "héllo wörld ✓ ünïcödé 日本語のテキスト 🎉🎉🎉 and more ✓✓✓ text here".to_string(),
        "          \n\n\t\t    x      \n      ".to_string(),
        "aaaaaaaaaaaaaaaaaaaaaaaaaaaaaaaaaaaaaaaaaaaaaaaaaaaaaaaaaaaaaaaaaaaaaaa".to_string(),
    ];
    let mut long = String::new();
    for i in 0..30 {
        long.push_str(&format!("\n## Section {}\n\nfn item{}() {{}}\n\npub fn other() {{}}\n```\ncode ✓\n```\n", i, i));
    }
    texts.push(long);
    let separator_sets: Vec<Vec<String>> = vec![
        SemanticChunker::default_separators(),
        vec![" ".to_string()],
        vec!["\n".to_string(), "".to_string()],
        vec!["✓".to_string(), "の".to_string()],
        Vec::new(),
    ];
    for text in &texts {
        for separators in &separator_sets {
            for (size, overlap) in [(0, 0), (1, 0), (1, 5), (7, 3), (16, 4), (50, 10), (100, 20), (512, 64), (40, 40), (40, 90)] {
                let chunker = SemanticChunker::new(size, overlap, separators.clone());
                let chunks = chunker.split(text);
                let wanted = reference_split(size, overlap, separators, text);
                assert_eq!(chunks, wanted, "size {} overlap {} separators {:?} text {:?}", size, overlap, separators, text);
                for chunk in &chunks {
                    assert_eq!(chunk.content, &text[chunk.start_offset..chunk.end_offset]);
                    assert!(chunk.start_line >= 1 && chunk.start_line <= chunk.end_line);
                }
            }
        }
    }
}

#[test]
fn boundaries_lie_between_characters() {
    let text = "a✓b🎉";
    // offsets: a 0, ✓ 1..4, b 4, 🎉 5..9
    assert_eq!(find_char_boundary(text, 0), 0);
    assert_eq!(find_char_boundary(text, 2), 1);
    assert_eq!(find_char_boundary(text, 3), 1);
    assert_eq!(find_char_boundary(text, 4), 4);
    assert_eq!(find_char_boundary(text, 8), 5);
    assert_eq!(find_char_boundary(text, 9), 9);
    assert_eq!(find_char_boundary(text, 100), 9);
    assert_eq!(find_next_char_boundary(text, 0), 0);
    assert_eq!(find_next_char_boundary(text, 2), 4);
    assert_eq!(find_next_char_boundary(text, 6), 9);
    assert_eq!(find_next_char_boundary(text, 100), 9);
    assert_eq!(find_next_char_boundary("", 0), 0);
}

#[test]
fn extract_chunk_cuts_after_the_last_separator() {
    let chunker = SemanticChunker::new(15, 0, vec!["; ".to_string(), " ".to_string()]);
    let text = "alpha beta; gamma delta; epsilon";
    assert_eq!(chunker.extract_chunk(text, 0), ("alpha beta; ".to_string(), 12));
    assert_eq!(chunker.extract_chunk(text, 12), ("gamma delta; ".to_string(), 25));
    assert_eq!(chunker.extract_chunk(text, 25), ("epsilon".to_string(), 32));
    let no_separator = SemanticChunker::new(5, 0, vec!["#".to_string()]);
    assert_eq!(no_separator.extract_chunk(text, 0), ("alpha".to_string(), 5));
    // A separator at the very start of the region does not cut.
    let leading = SemanticChunker::new(6, 0, vec!["a".to_string()]);
    assert_eq!(leading.extract_chunk("abcdefgh", 0), ("abcdef".to_string(), 6));
}
