//! Where the extension of the market database that reads Parquet files is, and where it comes
//! from.

use vstd::prelude::*;

use crate::text;
use crate::text::{chars_of, string_of, text_eq, trim_text};

verus! {

/// The name that the database gives to a platform; none for those it is not built for.
pub open spec fn platform_text(os: Seq<char>, arch: Seq<char>) -> Option<Seq<char>> {
    if os == "linux"@ && arch == "x86_64"@ {
        Some("linux_amd64"@)
    } else if os == "linux"@ && arch == "aarch64"@ {
        Some("linux_arm64"@)
    } else if os == "macos"@ && arch == "aarch64"@ {
        Some("osx_arm64"@)
    } else if os == "macos"@ && arch == "x86_64"@ {
        Some("osx_amd64"@)
    } else if os == "windows"@ && arch == "x86_64"@ {
        Some("windows_amd64"@)
    } else {
        None
    }
}

/// The name that the database gives to a platform; otherwise what the user reads.
pub fn platform(os: &str, arch: &str) -> (r: Result<&'static str, String>)
    ensures
        match platform_text(os@, arch@) {
            Some(p) => r matches Ok(name) && name@ == p,
            None => r matches Err(e) && e@ == "不支持的平台 "@ + os@ + "/"@ + arch@,
        },
{
    if text_eq(os, "linux") && text_eq(arch, "x86_64") {
        Ok("linux_amd64")
    } else if text_eq(os, "linux") && text_eq(arch, "aarch64") {
        Ok("linux_arm64")
    } else if text_eq(os, "macos") && text_eq(arch, "aarch64") {
        Ok("osx_arm64")
    } else if text_eq(os, "macos") && text_eq(arch, "x86_64") {
        Ok("osx_amd64")
    } else if text_eq(os, "windows") && text_eq(arch, "x86_64") {
        Ok("windows_amd64")
    } else {
        let mut e = String::new();
        e.append("不支持的平台 ");
        e.append(os);
        e.append("/");
        e.append(arch);
        assert(e@ =~= "不支持的平台 "@ + os@ + "/"@ + arch@);
        Err(e)
    }
}

/// A text without a character at its start, however often it stands there.
pub open spec fn without_leading(s: Seq<char>, c: char) -> Seq<char>
    decreases s.len(),
{
    if s.len() > 0 && s[0] == c {
        without_leading(s.skip(1), c)
    } else {
        s
    }
}

/// The number of a version, such as `1.2.0` of `v1.2.0`.
pub fn version_number(version: &str) -> (r: String)
    ensures
        r@ == without_leading(text::trimmed(version@), 'v'),
{
    let trimmed = trim_text(version);
    let chars = chars_of(trimmed.as_str());
    let n: usize = chars.len();
    let mut from: usize = 0;
    assert(chars@.skip(0) =~= chars@);
    while from < n && chars[from] == 'v'
        invariant
            n == chars@.len(),
            from <= n,
            without_leading(chars@, 'v') == without_leading(chars@.skip(from as int), 'v'),
        decreases n - from,
    {
        assert(chars@.skip(from as int)[0] == chars@[from as int]);
        assert(chars@.skip(from as int).skip(1) =~= chars@.skip(from + 1));
        from = from + 1;
    }
    if from < n {
        assert(chars@.skip(from as int)[0] == chars@[from as int]);
    }
    assert(chars@.skip(from as int) =~= chars@.subrange(from as int, n as int));
    string_of(&chars, from, n)
}

/// The directory of the extensions of a version.
pub fn extension_dir(home: &str, version: &str, platform: &str) -> (r: String)
    ensures
        r@ == home@ + "/.duckdb/extensions/v"@ + version@ + "/"@ + platform@,
{
    let mut out = String::new();
    out.append(home);
    out.append("/.duckdb/extensions/v");
    out.append(version);
    out.append("/");
    out.append(platform);
    assert(out@ =~= home@ + "/.duckdb/extensions/v"@ + version@ + "/"@ + platform@);
    out
}

/// Where the extension comes from.
pub fn extension_url(version: &str, platform: &str) -> (r: String)
    ensures
        r@ == "https://extensions.duckdb.org/v"@ + version@ + "/"@ + platform@
            + "/parquet.duckdb_extension.gz"@,
{
    let mut out = String::new();
    out.append("https://extensions.duckdb.org/v");
    out.append(version);
    out.append("/");
    out.append(platform);
    out.append("/parquet.duckdb_extension.gz");
    assert(out@ =~= "https://extensions.duckdb.org/v"@ + version@ + "/"@ + platform@
        + "/parquet.duckdb_extension.gz"@);
    out
}

} // verus!
