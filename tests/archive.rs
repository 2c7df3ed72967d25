use std::io::{self, Cursor, Read, Seek, SeekFrom, Write};

use rust_upload::entry::relative_entry_name;
use rust_upload::session::{Chunk, StreamingUploader};
use rust_upload::sink::{ChunkedStreamingUploader, SeekTarget};
use zip::write::{SimpleFileOptions, ZipWriter};
use zip::ZipArchive;

struct Collect {
    inner: ChunkedStreamingUploader<u32>,
    sent: Vec<Chunk>,
}

impl Write for Collect {
    fn write(&mut self, buf: &[u8]) -> io::Result<usize> {
        let out = self.inner.write(buf);
        self.sent.extend(out);
        Ok(buf.len())
    }

    fn flush(&mut self) -> io::Result<()> {
        Ok(())
    }
}

impl Seek for Collect {
    fn seek(&mut self, pos: SeekFrom) -> io::Result<u64> {
        let target = match pos {
            SeekFrom::Start(n) => SeekTarget::Start(n),
            SeekFrom::Current(d) => SeekTarget::Current(d),
            SeekFrom::End(d) => SeekTarget::End(d),
        };
        self.inner
            .seek(target)
            .map_err(|_| io::Error::new(io::ErrorKind::Unsupported, "unsupported seek"))
    }
}

fn collector(capacity: usize) -> Collect {
    let uploader = StreamingUploader::new("http://localhost:3000/upload", "test.zip");
    Collect { inner: ChunkedStreamingUploader::new(uploader, capacity), sent: Vec::new() }
}

fn archive(capacity: usize, files: &[(&[&str], &[u8])]) -> io::Result<Vec<Chunk>> {
    let root = vec!["in".to_string()];
    let mut sink = collector(capacity);
    {
        let mut zip = ZipWriter::new(&mut sink);
        for (path, data) in files {
            let mut parts = root.clone();
            parts.extend(path.iter().map(|p| p.to_string()));
            let name = relative_entry_name(&root, &parts).unwrap();
            zip.start_file(name, SimpleFileOptions::default().large_file(true))?;
            zip.write_all(data)?;
        }
        zip.finish()?;
    }
    let last = sink.inner.finalize();
    sink.sent.push(last);
    Ok(sink.sent)
}

fn bytes_of(chunks: &[Chunk]) -> Vec<u8> {
    let mut all = Vec::new();
    for c in chunks {
        all.extend_from_slice(&c.payload);
    }
    all
}

#[test]
fn single_file_archive_uploads_as_ranges() {
    let chunks = archive(4096, &[(&["abc.txt"], b"abc")]).unwrap();
    let all = bytes_of(&chunks);
    let n = all.len();
    assert_eq!(chunks.len(), 1);
    assert_eq!(chunks[0].content_range(), format!("bytes 0-{}/{}", n - 1, n));
    let mut zip = ZipArchive::new(Cursor::new(all)).unwrap();
    assert_eq!(zip.len(), 1);
    let mut text = String::new();
    zip.by_index(0).unwrap().read_to_string(&mut text).unwrap();
    assert_eq!(text, "abc");
}

#[test]
fn archive_split_over_chunks_declares_total_on_last() {
    let data: Vec<u8> = (0..100u32).map(|i| (i * 7 % 251) as u8).collect();
    let chunks = archive(256, &[(&["one.bin"], &data[..])]).unwrap();
    let all = bytes_of(&chunks);
    let n = all.len();
    assert!(chunks.len() > 1);
    assert_eq!(chunks[0].content_range(), "bytes 0-255/*");
    for c in &chunks[..chunks.len() - 1] {
        assert_eq!(c.payload.len(), 256);
        assert!(!c.is_final);
    }
    let last = chunks.last().unwrap();
    assert_eq!(last.content_range(), format!("bytes {}-{}/{}", last.start_offset, n - 1, n));
    let mut zip = ZipArchive::new(Cursor::new(all)).unwrap();
    let mut back = Vec::new();
    zip.by_index(0).unwrap().read_to_end(&mut back).unwrap();
    assert_eq!(back, data);
}

#[test]
fn directory_entries_are_keyed_by_relative_path() {
    let chunks =
        archive(1 << 16, &[(&["a.txt"], b"first"), (&["sub", "b.txt"], b"second")]).unwrap();
    let zip = ZipArchive::new(Cursor::new(bytes_of(&chunks))).unwrap();
    let mut names: Vec<String> = zip.file_names().map(String::from).collect();
    names.sort();
    assert_eq!(names, vec!["a.txt".to_string(), "sub/b.txt".to_string()]);
}

#[test]
fn tiny_chunks_refuse_header_rewrite() {
    let err = archive(2, &[(&["abc.txt"], b"abc")]).err().unwrap();
    assert_eq!(err.kind(), io::ErrorKind::Unsupported);
}
