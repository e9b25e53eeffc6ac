//! Source acquisition: the fixed set of source files the build consumes,
//! each with the remote location it is fetched from when the cache does
//! not already hold it. The fetching itself is plain one-shot I/O and
//! lives with the caller; a file already cached is never fetched again.

use vstd::prelude::*;
use vstd::string::StringExecFns;

verus! {

/// One required source file: its name in the cache directory and the
/// fixed remote location it comes from.
pub struct SourceFile {
    pub file_name: String,
    pub url: String,
}

/// The four required source files, in the order they are fetched: the
/// three Unicode Character Database exports, then the HTML entity
/// mapping.
pub fn source_files() -> (r: Vec<SourceFile>)
    ensures
        r@.len() == 4,
        r@[0].file_name@ == "Blocks.txt"@,
        r@[0].url@ == "http://ftp.unicode.org/Public/13.0.0/ucd/"@ + "Blocks.txt"@,
        r@[1].file_name@ == "DerivedAge.txt"@,
        r@[1].url@ == "http://ftp.unicode.org/Public/13.0.0/ucd/"@ + "DerivedAge.txt"@,
        r@[2].file_name@ == "UnicodeData.txt"@,
        r@[2].url@ == "http://ftp.unicode.org/Public/13.0.0/ucd/"@ + "UnicodeData.txt"@,
        r@[3].file_name@ == "entities.json"@,
        r@[3].url@ == "https://html.spec.whatwg.org/entities.json"@,
{
    let mut files: Vec<SourceFile> = Vec::new();
    let mut url0 = String::from_str("http://ftp.unicode.org/Public/13.0.0/ucd/");
    url0.append("Blocks.txt");
    files.push(SourceFile { file_name: String::from_str("Blocks.txt"), url: url0 });
    let mut url1 = String::from_str("http://ftp.unicode.org/Public/13.0.0/ucd/");
    url1.append("DerivedAge.txt");
    files.push(SourceFile { file_name: String::from_str("DerivedAge.txt"), url: url1 });
    let mut url2 = String::from_str("http://ftp.unicode.org/Public/13.0.0/ucd/");
    url2.append("UnicodeData.txt");
    files.push(SourceFile { file_name: String::from_str("UnicodeData.txt"), url: url2 });
    files.push(
        SourceFile {
            file_name: String::from_str("entities.json"),
            url: String::from_str("https://html.spec.whatwg.org/entities.json"),
        },
    );
    files
}

} // verus!
