use iggy_core::compression::{Compressor, GzCompressor};

const DATA: &str = r#"
        (a stench is in 3 5)
         (a pit is nearby)
         (is the wumpus near)
         (Did you go to 3 8)
         (Yes -- Nothing is there)
        (Shoot -- Shoot left)
        (Kill the wumpus -- shoot up)))
        (defun ss (&optional (sentences *sentences*))
        "Run some test sentences, and count how many were¬
        not parsed."
        (count-if-not
        #'(lambda (s)
        (format t "~2&>>> ~(~{~a ~}~)~%"¬
        s)
        (write (second (parse s)) :pretty t))
        *sentences*))"#;

#[test]
fn test_gzip_compress() {
    let compressor = GzCompressor::new();
    let result = compressor.compress(DATA.as_bytes());
    assert!(result.is_ok());
    let compressed = result.unwrap();
    assert_ne!(compressed.len(), DATA.len());
}

#[test]
fn test_gzip_decompress() {
    let compressor = GzCompressor::new();
    let compressed_data = compressor.compress(DATA.as_bytes()).unwrap();
    let result = compressor.decompress(&compressed_data);

    assert!(result.is_ok());
    let decompressed = result.unwrap();
    assert_eq!(decompressed, DATA.as_bytes());
}

#[test]
fn gzip_round_trip_empty() {
    let compressor = GzCompressor::new();
    let compressed = compressor.compress(&[]).unwrap();
    let decompressed = compressor.decompress(&compressed).unwrap();
    assert_eq!(decompressed.len(), 0);
}

#[test]
fn gzip_decompress_garbage_fails() {
    let compressor = GzCompressor::new();
    let result = compressor.decompress(&[1u8, 2, 3, 4]);
    assert!(result.is_err());
}

#[test]
fn thresholds() {
    let c = GzCompressor::new();
    assert_eq!(c.min_data_size, 150);
    assert!(c.should_compress(150));
    assert!(!c.should_compress(149));
    let c2 = GzCompressor::new_with_min_compression_size(10);
    assert_eq!(c2.min_data_size, 10);
    assert!(c2.should_compress(10));
}

#[test]
fn gzip_equal_inputs_equal_streams() {
    let compressor = GzCompressor::new();
    let a = compressor.compress(DATA.as_bytes()).unwrap();
    let b = compressor.compress(DATA.as_bytes()).unwrap();
    assert_eq!(a, b);
}
