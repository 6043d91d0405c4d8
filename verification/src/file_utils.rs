//! What a file's name and times tell: its kind, its colors, and how its name,
//! its date and its size are shown.
use crate::numerals::{decimal, to_decimal, to_padded, zero_padded};
use crate::paths::{extension, extension_of};
use crate::text::{ascii_lower, chars_of, copy_text, find_last, last_position, lowercase};
use crate::text::{text_between, text_eq, to_ascii_lower, to_lower};
use crate::listing::{is_parent_row, names_parent};
use crate::types::Rgb;
use vstd::prelude::*;
use vstd::string::StringExecFns;

verus! {

// ---------------------------------------------------------------------------
// Kinds of files
// ---------------------------------------------------------------------------

/// Whether an extension is one of source code or plain text.
pub open spec fn is_code_extension(s: Seq<char>) -> bool {
    s == "rs"@ || s == "js"@ || s == "ts"@ || s == "jsx"@ || s == "tsx"@ || s == "py"@
    || s == "java"@ || s == "c"@ || s == "cpp"@ || s == "h"@ || s == "hpp"@ || s == "cs"@
    || s == "go"@ || s == "rb"@ || s == "php"@ || s == "html"@ || s == "css"@ || s == "scss"@
    || s == "json"@ || s == "xml"@ || s == "yaml"@ || s == "yml"@ || s == "toml"@ || s == "md"@
    || s == "txt"@ || s == "sh"@ || s == "bat"@ || s == "ps1"@ || s == "sql"@ || s == "vue"@
    || s == "svelte"@
}

/// Whether an extension is one of source code or plain text.
fn code_extension(s: &str) -> (r: bool)
    ensures
        r == is_code_extension(s@),
{
    text_eq(s, "rs") || text_eq(s, "js") || text_eq(s, "ts") || text_eq(s, "jsx")
    || text_eq(s, "tsx") || text_eq(s, "py") || text_eq(s, "java") || text_eq(s, "c")
    || text_eq(s, "cpp") || text_eq(s, "h") || text_eq(s, "hpp") || text_eq(s, "cs")
    || text_eq(s, "go") || text_eq(s, "rb") || text_eq(s, "php") || text_eq(s, "html")
    || text_eq(s, "css") || text_eq(s, "scss") || text_eq(s, "json") || text_eq(s, "xml")
    || text_eq(s, "yaml") || text_eq(s, "yml") || text_eq(s, "toml") || text_eq(s, "md")
    || text_eq(s, "txt") || text_eq(s, "sh") || text_eq(s, "bat") || text_eq(s, "ps1")
    || text_eq(s, "sql") || text_eq(s, "vue") || text_eq(s, "svelte")
}

/// Whether an extension is one of an archive.
pub open spec fn is_archive_extension(s: Seq<char>) -> bool {
    s == "7z"@ || s == "zip"@ || s == "rar"@ || s == "tar"@ || s == "gz"@ || s == "tgz"@
    || s == "bz2"@ || s == "xz"@ || s == "iso"@
}

/// Whether an extension is one of an archive.
fn archive_extension(s: &str) -> (r: bool)
    ensures
        r == is_archive_extension(s@),
{
    text_eq(s, "7z") || text_eq(s, "zip") || text_eq(s, "rar") || text_eq(s, "tar")
    || text_eq(s, "gz") || text_eq(s, "tgz") || text_eq(s, "bz2") || text_eq(s, "xz")
    || text_eq(s, "iso")
}

/// Whether an extension is one of an image that can be shown small.
pub open spec fn is_image_extension(s: Seq<char>) -> bool {
    s == "jpg"@ || s == "jpeg"@ || s == "png"@ || s == "bmp"@ || s == "gif"@ || s == "webp"@
}

/// Whether an extension is one of an image that can be shown small.
fn image_extension(s: &str) -> (r: bool)
    ensures
        r == is_image_extension(s@),
{
    text_eq(s, "jpg") || text_eq(s, "jpeg") || text_eq(s, "png") || text_eq(s, "bmp")
    || text_eq(s, "gif") || text_eq(s, "webp")
}

/// Whether an extension is one of a video.
pub open spec fn is_video_extension(s: Seq<char>) -> bool {
    s == "mp4"@ || s == "avi"@ || s == "mkv"@ || s == "mov"@ || s == "wmv"@ || s == "flv"@
    || s == "webm"@ || s == "m4v"@ || s == "ogv"@
}

/// Whether an extension is one of a video.
fn video_extension(s: &str) -> (r: bool)
    ensures
        r == is_video_extension(s@),
{
    text_eq(s, "mp4") || text_eq(s, "avi") || text_eq(s, "mkv") || text_eq(s, "mov")
    || text_eq(s, "wmv") || text_eq(s, "flv") || text_eq(s, "webm") || text_eq(s, "m4v")
    || text_eq(s, "ogv")
}

/// Whether a dotted extension is one of programs and installers.
pub open spec fn is_programs_ext(s: Seq<char>) -> bool {
    s == ".exe"@ || s == ".msi"@ || s == ".com"@ || s == ".appx"@ || s == ".msix"@
}

/// Whether a dotted extension is one of programs and installers.
fn programs_ext(s: &str) -> (r: bool)
    ensures
        r == is_programs_ext(s@),
{
    text_eq(s, ".exe") || text_eq(s, ".msi") || text_eq(s, ".com") || text_eq(s, ".appx")
    || text_eq(s, ".msix")
}

/// Whether a dotted extension is one of scripts.
pub open spec fn is_scripts_ext(s: Seq<char>) -> bool {
    s == ".bat"@ || s == ".cmd"@ || s == ".ps1"@ || s == ".psm1"@ || s == ".psd1"@
    || s == ".vbs"@ || s == ".wsf"@ || s == ".sh"@
}

/// Whether a dotted extension is one of scripts.
fn scripts_ext(s: &str) -> (r: bool)
    ensures
        r == is_scripts_ext(s@),
{
    text_eq(s, ".bat") || text_eq(s, ".cmd") || text_eq(s, ".ps1") || text_eq(s, ".psm1")
    || text_eq(s, ".psd1") || text_eq(s, ".vbs") || text_eq(s, ".wsf") || text_eq(s, ".sh")
}

/// Whether a dotted extension is one of libraries and drivers.
pub open spec fn is_libraries_ext(s: Seq<char>) -> bool {
    s == ".dll"@ || s == ".sys"@ || s == ".ocx"@ || s == ".drv"@ || s == ".ax"@
}

/// Whether a dotted extension is one of libraries and drivers.
fn libraries_ext(s: &str) -> (r: bool)
    ensures
        r == is_libraries_ext(s@),
{
    text_eq(s, ".dll") || text_eq(s, ".sys") || text_eq(s, ".ocx") || text_eq(s, ".drv")
    || text_eq(s, ".ax")
}

/// Whether a dotted extension is one of videos.
pub open spec fn is_videos_ext(s: Seq<char>) -> bool {
    s == ".mp4"@ || s == ".mkv"@ || s == ".avi"@ || s == ".mov"@ || s == ".wmv"@
    || s == ".flv"@ || s == ".webm"@ || s == ".m4v"@ || s == ".m2ts"@ || s == ".vob"@
    || s == ".mpg"@ || s == ".mpeg"@ || s == ".f4v"@ || s == ".3gp"@ || s == ".ogv"@
}

/// Whether a dotted extension is one of videos.
fn videos_ext(s: &str) -> (r: bool)
    ensures
        r == is_videos_ext(s@),
{
    text_eq(s, ".mp4") || text_eq(s, ".mkv") || text_eq(s, ".avi") || text_eq(s, ".mov")
    || text_eq(s, ".wmv") || text_eq(s, ".flv") || text_eq(s, ".webm") || text_eq(s, ".m4v")
    || text_eq(s, ".m2ts") || text_eq(s, ".vob") || text_eq(s, ".mpg") || text_eq(s, ".mpeg")
    || text_eq(s, ".f4v") || text_eq(s, ".3gp") || text_eq(s, ".ogv")
}

/// Whether a dotted extension is one of sounds.
pub open spec fn is_sounds_ext(s: Seq<char>) -> bool {
    s == ".mp3"@ || s == ".wav"@ || s == ".flac"@ || s == ".aac"@ || s == ".ogg"@
    || s == ".wma"@ || s == ".m4a"@ || s == ".opus"@ || s == ".aiff"@ || s == ".ape"@
}

/// Whether a dotted extension is one of sounds.
fn sounds_ext(s: &str) -> (r: bool)
    ensures
        r == is_sounds_ext(s@),
{
    text_eq(s, ".mp3") || text_eq(s, ".wav") || text_eq(s, ".flac") || text_eq(s, ".aac")
    || text_eq(s, ".ogg") || text_eq(s, ".wma") || text_eq(s, ".m4a") || text_eq(s, ".opus")
    || text_eq(s, ".aiff") || text_eq(s, ".ape")
}

/// Whether a dotted extension is one of images.
pub open spec fn is_images_ext(s: Seq<char>) -> bool {
    s == ".jpg"@ || s == ".jpeg"@ || s == ".png"@ || s == ".bmp"@ || s == ".gif"@
    || s == ".webp"@ || s == ".svg"@ || s == ".ico"@ || s == ".tiff"@ || s == ".tif"@
    || s == ".heic"@ || s == ".avif"@ || s == ".raw"@ || s == ".cr2"@ || s == ".nef"@ || s == ".arw"@
}

/// Whether a dotted extension is one of images.
fn images_ext(s: &str) -> (r: bool)
    ensures
        r == is_images_ext(s@),
{
    text_eq(s, ".jpg") || text_eq(s, ".jpeg") || text_eq(s, ".png") || text_eq(s, ".bmp")
    || text_eq(s, ".gif") || text_eq(s, ".webp") || text_eq(s, ".svg") || text_eq(s, ".ico")
    || text_eq(s, ".tiff") || text_eq(s, ".tif") || text_eq(s, ".heic") || text_eq(s, ".avif")
    || text_eq(s, ".raw") || text_eq(s, ".cr2") || text_eq(s, ".nef") || text_eq(s, ".arw")
}

/// Whether a dotted extension is one of archives.
pub open spec fn is_archives_ext(s: Seq<char>) -> bool {
    s == ".zip"@ || s == ".7z"@ || s == ".rar"@ || s == ".tar"@ || s == ".gz"@ || s == ".bz2"@
    || s == ".xz"@ || s == ".zst"@ || s == ".cab"@ || s == ".iso"@ || s == ".img"@
    || s == ".dmg"@ || s == ".tgz"@ || s == ".lz4"@
}

/// Whether a dotted extension is one of archives.
fn archives_ext(s: &str) -> (r: bool)
    ensures
        r == is_archives_ext(s@),
{
    text_eq(s, ".zip") || text_eq(s, ".7z") || text_eq(s, ".rar") || text_eq(s, ".tar")
    || text_eq(s, ".gz") || text_eq(s, ".bz2") || text_eq(s, ".xz") || text_eq(s, ".zst")
    || text_eq(s, ".cab") || text_eq(s, ".iso") || text_eq(s, ".img") || text_eq(s, ".dmg")
    || text_eq(s, ".tgz") || text_eq(s, ".lz4")
}

/// Whether a dotted extension is one of printed documents.
pub open spec fn is_pdf_ext(s: Seq<char>) -> bool {
    s == ".pdf"@
}

/// Whether a dotted extension is one of printed documents.
fn pdf_ext(s: &str) -> (r: bool)
    ensures
        r == is_pdf_ext(s@),
{
    text_eq(s, ".pdf")
}

/// Whether a dotted extension is one of text documents.
pub open spec fn is_documents_ext(s: Seq<char>) -> bool {
    s == ".doc"@ || s == ".docx"@ || s == ".odt"@ || s == ".rtf"@
}

/// Whether a dotted extension is one of text documents.
fn documents_ext(s: &str) -> (r: bool)
    ensures
        r == is_documents_ext(s@),
{
    text_eq(s, ".doc") || text_eq(s, ".docx") || text_eq(s, ".odt") || text_eq(s, ".rtf")
}

/// Whether a dotted extension is one of tables.
pub open spec fn is_sheets_ext(s: Seq<char>) -> bool {
    s == ".xls"@ || s == ".xlsx"@ || s == ".ods"@ || s == ".csv"@
}

/// Whether a dotted extension is one of tables.
fn sheets_ext(s: &str) -> (r: bool)
    ensures
        r == is_sheets_ext(s@),
{
    text_eq(s, ".xls") || text_eq(s, ".xlsx") || text_eq(s, ".ods") || text_eq(s, ".csv")
}

/// Whether a dotted extension is one of presentations.
pub open spec fn is_slides_ext(s: Seq<char>) -> bool {
    s == ".ppt"@ || s == ".pptx"@ || s == ".odp"@
}

/// Whether a dotted extension is one of presentations.
fn slides_ext(s: &str) -> (r: bool)
    ensures
        r == is_slides_ext(s@),
{
    text_eq(s, ".ppt") || text_eq(s, ".pptx") || text_eq(s, ".odp")
}

/// Whether a dotted extension is one of plain texts.
pub open spec fn is_notes_ext(s: Seq<char>) -> bool {
    s == ".txt"@ || s == ".md"@ || s == ".rst"@ || s == ".log"@ || s == ".nfo"@
}

/// Whether a dotted extension is one of plain texts.
fn notes_ext(s: &str) -> (r: bool)
    ensures
        r == is_notes_ext(s@),
{
    text_eq(s, ".txt") || text_eq(s, ".md") || text_eq(s, ".rst") || text_eq(s, ".log")
    || text_eq(s, ".nfo")
}

/// Whether a dotted extension is one of sources.
pub open spec fn is_code_ext(s: Seq<char>) -> bool {
    s == ".rs"@ || s == ".c"@ || s == ".cpp"@ || s == ".cc"@ || s == ".cxx"@ || s == ".h"@
    || s == ".hpp"@ || s == ".cs"@ || s == ".java"@ || s == ".go"@ || s == ".swift"@
    || s == ".kt"@ || s == ".kts"@ || s == ".py"@ || s == ".rb"@ || s == ".php"@ || s == ".pl"@
    || s == ".lua"@ || s == ".js"@ || s == ".ts"@ || s == ".jsx"@ || s == ".tsx"@ || s == ".vue"@
    || s == ".svelte"@ || s == ".html"@ || s == ".htm"@ || s == ".css"@ || s == ".scss"@
    || s == ".sass"@ || s == ".less"@ || s == ".sql"@ || s == ".r"@ || s == ".m"@ || s == ".f"@
    || s == ".f90"@ || s == ".zig"@ || s == ".nim"@ || s == ".dart"@ || s == ".ex"@
    || s == ".exs"@ || s == ".clj"@ || s == ".cljs"@ || s == ".scala"@ || s == ".elm"@
    || s == ".erl"@ || s == ".hrl"@ || s == ".hs"@ || s == ".lhs"@
}

/// Whether a dotted extension is one of sources.
fn code_ext(s: &str) -> (r: bool)
    ensures
        r == is_code_ext(s@),
{
    text_eq(s, ".rs") || text_eq(s, ".c") || text_eq(s, ".cpp") || text_eq(s, ".cc")
    || text_eq(s, ".cxx") || text_eq(s, ".h") || text_eq(s, ".hpp") || text_eq(s, ".cs")
    || text_eq(s, ".java") || text_eq(s, ".go") || text_eq(s, ".swift") || text_eq(s, ".kt")
    || text_eq(s, ".kts") || text_eq(s, ".py") || text_eq(s, ".rb") || text_eq(s, ".php")
    || text_eq(s, ".pl") || text_eq(s, ".lua") || text_eq(s, ".js") || text_eq(s, ".ts")
    || text_eq(s, ".jsx") || text_eq(s, ".tsx") || text_eq(s, ".vue") || text_eq(s, ".svelte")
    || text_eq(s, ".html") || text_eq(s, ".htm") || text_eq(s, ".css") || text_eq(s, ".scss")
    || text_eq(s, ".sass") || text_eq(s, ".less") || text_eq(s, ".sql") || text_eq(s, ".r")
    || text_eq(s, ".m") || text_eq(s, ".f") || text_eq(s, ".f90") || text_eq(s, ".zig")
    || text_eq(s, ".nim") || text_eq(s, ".dart") || text_eq(s, ".ex") || text_eq(s, ".exs")
    || text_eq(s, ".clj") || text_eq(s, ".cljs") || text_eq(s, ".scala") || text_eq(s, ".elm")
    || text_eq(s, ".erl") || text_eq(s, ".hrl") || text_eq(s, ".hs") || text_eq(s, ".lhs")
}

/// Whether a dotted extension is one of settings and data.
pub open spec fn is_settings_ext(s: Seq<char>) -> bool {
    s == ".json"@ || s == ".toml"@ || s == ".yaml"@ || s == ".yml"@ || s == ".xml"@
    || s == ".ini"@ || s == ".cfg"@ || s == ".conf"@ || s == ".env"@ || s == ".properties"@
    || s == ".plist"@ || s == ".reg"@ || s == ".desktop"@ || s == ".service"@
}

/// Whether a dotted extension is one of settings and data.
fn settings_ext(s: &str) -> (r: bool)
    ensures
        r == is_settings_ext(s@),
{
    text_eq(s, ".json") || text_eq(s, ".toml") || text_eq(s, ".yaml") || text_eq(s, ".yml")
    || text_eq(s, ".xml") || text_eq(s, ".ini") || text_eq(s, ".cfg") || text_eq(s, ".conf")
    || text_eq(s, ".env") || text_eq(s, ".properties") || text_eq(s, ".plist")
    || text_eq(s, ".reg") || text_eq(s, ".desktop") || text_eq(s, ".service")
}

/// Whether a dotted extension is one of fonts.
pub open spec fn is_fonts_ext(s: Seq<char>) -> bool {
    s == ".ttf"@ || s == ".otf"@ || s == ".woff"@ || s == ".woff2"@ || s == ".eot"@
}

/// Whether a dotted extension is one of fonts.
fn fonts_ext(s: &str) -> (r: bool)
    ensures
        r == is_fonts_ext(s@),
{
    text_eq(s, ".ttf") || text_eq(s, ".otf") || text_eq(s, ".woff") || text_eq(s, ".woff2")
    || text_eq(s, ".eot")
}

/// The colors of a dotted extension in small letters, on a dark and on a light
/// background; none for an extension of no known group.
pub open spec fn extension_colors(ext: Seq<char>) -> Option<(Rgb, Rgb)> {
    if is_programs_ext(ext) {
        Some((Rgb { r: 100, g: 160, b: 255 }, Rgb { r: 30, g: 80, b: 200 }))
    } else if is_scripts_ext(ext) {
        Some((Rgb { r: 130, g: 180, b: 255 }, Rgb { r: 50, g: 100, b: 200 }))
    } else if is_libraries_ext(ext) {
        Some((Rgb { r: 160, g: 210, b: 255 }, Rgb { r: 60, g: 130, b: 210 }))
    } else if is_videos_ext(ext) {
        Some((Rgb { r: 80, g: 200, b: 90 }, Rgb { r: 20, g: 130, b: 40 }))
    } else if is_sounds_ext(ext) {
        Some((Rgb { r: 50, g: 200, b: 200 }, Rgb { r: 0, g: 130, b: 140 }))
    } else if is_images_ext(ext) {
        Some((Rgb { r: 255, g: 165, b: 50 }, Rgb { r: 190, g: 90, b: 0 }))
    } else if is_archives_ext(ext) {
        Some((Rgb { r: 200, g: 100, b: 230 }, Rgb { r: 130, g: 30, b: 170 }))
    } else if is_pdf_ext(ext) {
        Some((Rgb { r: 255, g: 90, b: 80 }, Rgb { r: 190, g: 30, b: 20 }))
    } else if is_documents_ext(ext) {
        Some((Rgb { r: 130, g: 200, b: 255 }, Rgb { r: 30, g: 100, b: 200 }))
    } else if is_sheets_ext(ext) {
        Some((Rgb { r: 80, g: 210, b: 120 }, Rgb { r: 20, g: 140, b: 60 }))
    } else if is_slides_ext(ext) {
        Some((Rgb { r: 255, g: 140, b: 80 }, Rgb { r: 200, g: 70, b: 10 }))
    } else if is_notes_ext(ext) {
        Some((Rgb { r: 180, g: 180, b: 180 }, Rgb { r: 100, g: 100, b: 100 }))
    } else if is_code_ext(ext) {
        Some((Rgb { r: 255, g: 140, b: 60 }, Rgb { r: 160, g: 70, b: 0 }))
    } else if is_settings_ext(ext) {
        Some((Rgb { r: 160, g: 220, b: 160 }, Rgb { r: 40, g: 130, b: 40 }))
    } else if is_fonts_ext(ext) {
        Some((Rgb { r: 230, g: 160, b: 230 }, Rgb { r: 150, g: 40, b: 150 }))
    } else {
        None
    }
}

/// The color of a dotted extension in small letters.
pub fn ext_color(ext_lower: &str, dark_mode: bool) -> (r: Option<Rgb>)
    ensures
        r == match extension_colors(ext_lower@) {
            Some((dark, light)) => Some(
                if dark_mode {
                    dark
                } else {
                    light
                },
            ),
            None => None,
        },
{
    let (dark, light) =
        if programs_ext(ext_lower) {
            (Rgb { r: 100, g: 160, b: 255 }, Rgb { r: 30, g: 80, b: 200 })
        } else if scripts_ext(ext_lower) {
            (Rgb { r: 130, g: 180, b: 255 }, Rgb { r: 50, g: 100, b: 200 })
        } else if libraries_ext(ext_lower) {
            (Rgb { r: 160, g: 210, b: 255 }, Rgb { r: 60, g: 130, b: 210 })
        } else if videos_ext(ext_lower) {
            (Rgb { r: 80, g: 200, b: 90 }, Rgb { r: 20, g: 130, b: 40 })
        } else if sounds_ext(ext_lower) {
            (Rgb { r: 50, g: 200, b: 200 }, Rgb { r: 0, g: 130, b: 140 })
        } else if images_ext(ext_lower) {
            (Rgb { r: 255, g: 165, b: 50 }, Rgb { r: 190, g: 90, b: 0 })
        } else if archives_ext(ext_lower) {
            (Rgb { r: 200, g: 100, b: 230 }, Rgb { r: 130, g: 30, b: 170 })
        } else if pdf_ext(ext_lower) {
            (Rgb { r: 255, g: 90, b: 80 }, Rgb { r: 190, g: 30, b: 20 })
        } else if documents_ext(ext_lower) {
            (Rgb { r: 130, g: 200, b: 255 }, Rgb { r: 30, g: 100, b: 200 })
        } else if sheets_ext(ext_lower) {
            (Rgb { r: 80, g: 210, b: 120 }, Rgb { r: 20, g: 140, b: 60 })
        } else if slides_ext(ext_lower) {
            (Rgb { r: 255, g: 140, b: 80 }, Rgb { r: 200, g: 70, b: 10 })
        } else if notes_ext(ext_lower) {
            (Rgb { r: 180, g: 180, b: 180 }, Rgb { r: 100, g: 100, b: 100 })
        } else if code_ext(ext_lower) {
            (Rgb { r: 255, g: 140, b: 60 }, Rgb { r: 160, g: 70, b: 0 })
        } else if settings_ext(ext_lower) {
            (Rgb { r: 160, g: 220, b: 160 }, Rgb { r: 40, g: 130, b: 40 })
        } else if fonts_ext(ext_lower) {
            (Rgb { r: 230, g: 160, b: 230 }, Rgb { r: 150, g: 40, b: 150 })
        } else {
            return None;
        };
    Some(
        if dark_mode {
            dark
        } else {
            light
        },
    )
}

/// Whether a file holds source code or plain text, given its extension in
/// small letters.
pub open spec fn is_code_name(lower_ext: Option<Seq<char>>) -> bool {
    match lower_ext {
        Some(e) => is_code_extension(e),
        None => false,
    }
}

/// Whether a file holds an archive, given its extension in small letters.
pub open spec fn is_archive_name(lower_ext: Option<Seq<char>>) -> bool {
    match lower_ext {
        Some(e) => is_archive_extension(e),
        None => false,
    }
}

/// The extension of a name in small letters.
pub open spec fn lower_extension(name: Seq<char>) -> Option<Seq<char>> {
    match extension_of(name) {
        Some(e) => Some(lowercase(e)),
        None => None,
    }
}

/// Whether the extension, in small letters, is one of source code or plain
/// text.
pub fn is_code_lower(lower_ext: &str) -> (r: bool)
    ensures
        r == is_code_extension(lower_ext@),
{
    code_extension(lower_ext)
}

/// Whether the extension, in small letters, is one of an archive.
pub fn is_archive_lower(lower_ext: &str) -> (r: bool)
    ensures
        r == is_archive_extension(lower_ext@),
{
    archive_extension(lower_ext)
}

/// Whether the file `name` holds source code or plain text.
pub fn is_code_file(name: &str) -> (r: bool)
    ensures
        r == is_code_name(lower_extension(name@)),
{
    match extension(name) {
        Some(e) => is_code_lower(to_lower(e.as_str()).as_str()),
        None => false,
    }
}

/// Whether the file `name` holds an archive.
pub fn is_archive(name: &str) -> (r: bool)
    ensures
        r == is_archive_name(lower_extension(name@)),
{
    match extension(name) {
        Some(e) => is_archive_lower(to_lower(e.as_str()).as_str()),
        None => false,
    }
}

/// What follows the last dot of a name.
pub open spec fn last_piece(name: Seq<char>) -> Option<Seq<char>> {
    match last_position(name, '.') {
        Some(i) => Some(name.skip(i + 1)),
        None => None,
    }
}

/// What follows the last dot of a name.
fn piece_after_dot(name: &str) -> (r: Option<String>)
    ensures
        match r {
            Some(e) => last_piece(name@) == Some(e@),
            None => last_piece(name@) is None,
        },
{
    let v = chars_of(name);
    let n: usize = v.len();
    match find_last(&v, '.') {
        Some(i) => {
            let r = text_between(&v, i + 1, n);
            assert(r@ =~= name@.skip(i + 1));
            Some(r)
        },
        None => None,
    }
}

/// Whether a name is that of an image that can be shown small, by what follows its last dot.
pub open spec fn image_name(name: Seq<char>) -> bool {
    last_piece(name) matches Some(e) && is_image_extension(ascii_lower(e))
}

/// Whether a name is that of a video, by what follows its last dot.
pub open spec fn video_name(name: Seq<char>) -> bool {
    last_piece(name) matches Some(e) && is_video_extension(ascii_lower(e))
}

/// Whether the file `name` holds an image that can be shown small.
pub fn is_image_file(name: &str) -> (r: bool)
    ensures
        r == image_name(name@),
{
    match piece_after_dot(name) {
        Some(e) => image_extension(to_ascii_lower(e.as_str()).as_str()),
        None => false,
    }
}

/// Whether the file `name` holds a video.
pub fn is_video_file(name: &str) -> (r: bool)
    ensures
        r == video_name(name@),
{
    match piece_after_dot(name) {
        Some(e) => video_extension(to_ascii_lower(e.as_str()).as_str()),
        None => false,
    }
}

// ---------------------------------------------------------------------------
// Names
// ---------------------------------------------------------------------------

/// Where the shown extension of a name starts: at its last dot, unless that
/// is its first character; at its end where there is no such dot.
pub open spec fn extension_start(name: Seq<char>) -> int {
    match last_position(name, '.') {
        Some(i) => if i > 0 {
            i
        } else {
            name.len() as int
        },
        None => name.len() as int,
    }
}

/// The name up to its extension, and the extension with its dot. The way up
/// has none.
pub open spec fn split_name(name: Seq<char>) -> (Seq<char>, Seq<char>) {
    if is_parent_row(name) {
        (name, Seq::empty())
    } else {
        (name.take(extension_start(name)), name.skip(extension_start(name)))
    }
}

/// The two parts of a name make up the name.
pub proof fn split_name_loses_nothing(name: Seq<char>)
    ensures
        split_name(name).0 + split_name(name).1 == name,
        split_name(name).0.len() > 0 || name.len() == 0,
{
    crate::text::last_position_holds(name, '.');
    let (a, b) = split_name(name);
    assert(a + b =~= name);
    proof_parent_row_is_not_empty(name);
}

proof fn proof_parent_row_is_not_empty(name: Seq<char>)
    ensures
        is_parent_row(name) ==> name.len() > 0,
{
    reveal_strlit("[..]");
}

/// The name up to its extension, and the extension with its dot.
pub fn stem_and_extension(name: &str) -> (r: (String, String))
    ensures
        (r.0@, r.1@) == split_name(name@),
{
    if names_parent(name) {
        let e = String::new();
        assert(e@ =~= Seq::empty());
        return (copy_text(name), e);
    }
    let v = chars_of(name);
    let n: usize = v.len();
    let at: usize = match find_last(&v, '.') {
        Some(i) => if i > 0 {
            i
        } else {
            n
        },
        None => n,
    };
    let a = text_between(&v, 0, at);
    let b = text_between(&v, at, n);
    assert(a@ =~= name@.take(at as int));
    assert(b@ =~= name@.skip(at as int));
    (a, b)
}

/// A name that is cut so that `kept` characters stand before its extension.
pub open spec fn cut_name(name: Seq<char>, kept: nat) -> Seq<char> {
    split_name(name).0.take(kept as int) + "…"@ + split_name(name).1
}

/// A name that is cut to fit: the ellipsis stands before the extension.
pub fn truncate_name(name: &str, kept: usize) -> (r: String)
    requires
        kept <= split_name(name@).0.len(),
    ensures
        r@ == cut_name(name@, kept as nat),
{
    let (stem, ext) = stem_and_extension(name);
    let v = chars_of(stem.as_str());
    let mut r = text_between(&v, 0, kept);
    assert(r@ =~= split_name(name@).0.take(kept as int));
    r.append("…");
    r.append(ext.as_str());
    r
}

/// The number of characters before the extension of a name.
pub fn stem_length(name: &str) -> (r: usize)
    ensures
        r == split_name(name@).0.len(),
{
    let (stem, ext) = stem_and_extension(name);
    chars_of(stem.as_str()).len()
}

/// A name that is cut at its end so that `kept` characters stay.
pub fn cut_at_end(name: &str, kept: usize) -> (r: String)
    requires
        kept <= name@.len(),
    ensures
        r@ == name@.take(kept as int) + "…"@,
{
    let v = chars_of(name);
    let mut r = text_between(&v, 0, kept);
    assert(r@ =~= name@.take(kept as int));
    r.append("…");
    r
}

/// The first length to try for a name that is cut at its end: all of it but one character.
pub fn first_cut_at_end(name: &str) -> (r: usize)
    ensures
        r == if name@.len() == 0 {
            0
        } else {
            name@.len() - 1
        },
{
    let n: usize = chars_of(name).len();
    if n == 0 {
        0
    } else {
        n - 1
    }
}

/// The length that follows `kept`, where the form cut to that fits or does not.
pub open spec fn following_cut(fits: bool, kept: nat) -> Option<nat> {
    if fits || kept == 0 {
        None
    } else {
        Some((kept - 1) as nat)
    }
}

/// The next length to try for a name whose cut form does not fit; none where
/// it fits or nothing is left to cut.
pub fn next_cut(fits: bool, kept: usize) -> (r: Option<usize>)
    ensures
        match r {
            Some(n) => following_cut(fits, kept as nat) == Some(n as nat),
            None => following_cut(fits, kept as nat) is None,
        },
{
    if fits || kept == 0 {
        None
    } else {
        Some(kept - 1)
    }
}

/// Where trying ends that begins at the length `kept` and goes on until no length follows, with
/// `fits` telling of each length whether the form cut to it fits.
pub open spec fn last_cut(fits: Seq<bool>, kept: nat) -> nat
    decreases kept,
{
    match following_cut(fits[kept as int], kept) {
        Some(n) => if n < kept {
            last_cut(fits, n)
        } else {
            kept
        },
        None => kept,
    }
}

/// Trying length after length ends at the longest cut that fits, or at nothing where none does:
/// no longer one that was to be tried fits.
pub proof fn the_longest_cut_that_fits_is_found(fits: Seq<bool>, kept: nat)
    requires
        kept < fits.len(),
    ensures
        last_cut(fits, kept) <= kept,
        fits[last_cut(fits, kept) as int] || last_cut(fits, kept) == 0,
        forall|k: int| last_cut(fits, kept) < k <= kept ==> !fits[k],
    decreases kept,
{
    if !fits[kept as int] && kept > 0 {
        the_longest_cut_that_fits_is_found(fits, (kept - 1) as nat);
    }
}

/// The parts of a row's name: the whole name in one color for a folder and
/// for the way up; else the stem and a bold extension, in the color of the
/// extension unless the row is highlighted.
pub struct NameParts {
    pub stem: String,
    /// The extension with its dot; nothing where it is not set apart.
    pub ext: String,
    /// The color of both, where it is not that of the row.
    pub color: Option<Rgb>,
}

/// The color of a name's parts, given its dotted extension in small letters.
pub open spec fn parts_color(
    lower_ext: Seq<char>,
    highlighted: bool,
    dark_mode: bool,
) -> Option<Rgb> {
    if highlighted {
        None
    } else {
        match extension_colors(lower_ext) {
            Some((dark, light)) => Some(
                if dark_mode {
                    dark
                } else {
                    light
                },
            ),
            None => None,
        }
    }
}

/// The color of a name's parts, given its dotted extension in small letters.
pub fn color_of_parts(lower_ext: &str, highlighted: bool, dark_mode: bool) -> (r: Option<Rgb>)
    ensures
        r == parts_color(lower_ext@, highlighted, dark_mode),
{
    if highlighted {
        None
    } else {
        ext_color(lower_ext, dark_mode)
    }
}

/// The parts of a row's name.
pub fn name_layout_job(name: &str, is_dir: bool, highlighted: bool, dark_mode: bool) -> (r:
    NameParts)
    ensures
        if is_dir || split_name(name@).1.len() == 0 {
            r.stem@ == name@ && r.ext@.len() == 0 && r.color is None
        } else {
            r.stem@ == split_name(name@).0 && r.ext@ == split_name(name@).1 && r.color
                == parts_color(lowercase(split_name(name@).1), highlighted, dark_mode)
        },
{
    if is_dir {
        return NameParts { stem: copy_text(name), ext: String::new(), color: None };
    }
    let (stem, ext) = stem_and_extension(name);
    if ext.as_str().unicode_len() == 0 {
        return NameParts { stem: copy_text(name), ext: String::new(), color: None };
    }
    let color = color_of_parts(to_lower(ext.as_str()).as_str(), highlighted, dark_mode);
    NameParts { stem, ext, color }
}

// ---------------------------------------------------------------------------
// Sizes
// ---------------------------------------------------------------------------

/// The unit of a size: bytes, and then each a thousand and twenty-four times
/// the one before.
#[derive(Clone, Copy, PartialEq, Eq, Structural)]
pub enum SizeUnit {
    B,
    Kb,
    Mb,
    Gb,
    Tb,
}

/// The largest unit that is not larger than the size.
pub fn size_unit(bytes: u64) -> (r: SizeUnit)
    ensures
        r == if bytes < 0x400 {
            SizeUnit::B
        } else if bytes < 0x10_0000 {
            SizeUnit::Kb
        } else if bytes < 0x4000_0000 {
            SizeUnit::Mb
        } else if bytes < 0x100_0000_0000 {
            SizeUnit::Gb
        } else {
            SizeUnit::Tb
        },
{
    if bytes < 0x400 {
        SizeUnit::B
    } else if bytes < 0x10_0000 {
        SizeUnit::Kb
    } else if bytes < 0x4000_0000 {
        SizeUnit::Mb
    } else if bytes < 0x100_0000_0000 {
        SizeUnit::Gb
    } else {
        SizeUnit::Tb
    }
}

/// A size in bytes, as it is shown.
pub fn bytes_label(bytes: u64) -> (r: String)
    ensures
        r@ == decimal(bytes as nat) + " B"@,
{
    let mut r = to_decimal(bytes);
    r.append(" B");
    r
}

/// A number of bytes in whole kilobytes, as it is shown.
pub fn kilobytes_label(bytes: u64) -> (r: String)
    ensures
        r@ == decimal((bytes / 1024) as nat) + " KB"@,
{
    let mut r = to_decimal(bytes / 1024);
    r.append(" KB");
    r
}

// ---------------------------------------------------------------------------
// Dates
// ---------------------------------------------------------------------------

/// A day of the Gregorian calendar.
#[derive(Clone, Copy, PartialEq, Eq, Structural)]
pub struct Day {
    pub year: u64,
    pub month: u64,
    pub day: u64,
}

/// Whether a year has 366 days.
pub open spec fn is_leap(y: int) -> bool {
    y % 4 == 0 && (y % 100 != 0 || y % 400 == 0)
}

/// The number of days in a month.
pub open spec fn month_length(y: int, m: int) -> int {
    if m == 2 {
        if is_leap(y) {
            29
        } else {
            28
        }
    } else if m == 4 || m == 6 || m == 9 || m == 11 {
        30
    } else {
        31
    }
}

/// The number of days before a month in its year.
pub open spec fn days_before_month(y: int, m: int) -> int
    decreases m,
{
    if m <= 1 {
        0
    } else {
        days_before_month(y, m - 1) + month_length(y, m - 1)
    }
}

/// The number of days from the start of the year 0 to the start of a year.
pub open spec fn days_before_year(y: int) -> int {
    365 * y + (y + 3) / 4 - (y + 99) / 100 + (y + 399) / 400
}

/// Whether a day is one of the calendar.
pub open spec fn is_calendar_day(d: Day) -> bool {
    1 <= d.month <= 12 && 1 <= d.day <= month_length(d.year as int, d.month as int)
}

/// The number of days from the start of the year 0 to a day.
pub open spec fn day_number(d: Day) -> int {
    days_before_year(d.year as int) + days_before_month(d.year as int, d.month as int) + d.day - 1
}

/// Each year starts right after the one before it.
#[verifier::spinoff_prover]
#[verifier::rlimit(50)]
pub proof fn years_follow_each_other(y: int)
    requires
        y >= 0,
    ensures
        days_before_year(y + 1) == days_before_year(y) + (if is_leap(y) {
            366int
        } else {
            365int
        }),
        days_before_year(0) == 0,
        days_before_month(y, 13) == (if is_leap(y) {
            366int
        } else {
            365int
        }),
{
    reveal_with_fuel(days_before_month, 13);
    let a = (y + 3) / 4;
    let b = (y + 99) / 100;
    let c = (y + 399) / 400;
    assert((y + 4) / 4 == a + (if y % 4 == 0 {
        1int
    } else {
        0int
    }));
    assert((y + 100) / 100 == b + (if y % 100 == 0 {
        1int
    } else {
        0int
    }));
    assert((y + 400) / 400 == c + (if y % 400 == 0 {
        1int
    } else {
        0int
    }));
}

/// The months of a year that begins in March, so that the leap day is its
/// last: which one the day `n` falls in, and which of its days it is.
fn month_from_march(n: u64) -> (r: (u64, u64))
    requires
        n <= 365,
    ensures
        1 <= r.0 <= 12,
        1 <= r.1 <= 31,
        forall|y: int| #[trigger]
            days_before_month(y, r.0 as int) + r.1 - 1 == if r.0 >= 3 {
                n + 59 + (if is_leap(y) {
                    1int
                } else {
                    0int
                })
            } else {
                n - 306
            },
        forall|y: int|
            #![trigger month_length(y, r.0 as int)]
            (n == 365 ==> is_leap(y)) ==> r.1 <= month_length(y, r.0 as int),
        (r.0 <= 2) == (n >= 306),
{
    proof {
        reveal_with_fuel(days_before_month, 13);
    }
    if n < 31 {
        (3, n + 1)
    } else if n < 61 {
        (4, n - 31 + 1)
    } else if n < 92 {
        (5, n - 61 + 1)
    } else if n < 122 {
        (6, n - 92 + 1)
    } else if n < 153 {
        (7, n - 122 + 1)
    } else if n < 184 {
        (8, n - 153 + 1)
    } else if n < 214 {
        (9, n - 184 + 1)
    } else if n < 245 {
        (10, n - 214 + 1)
    } else if n < 275 {
        (11, n - 245 + 1)
    } else if n < 306 {
        (12, n - 275 + 1)
    } else if n < 337 {
        (1, n - 306 + 1)
    } else {
        (2, n - 337 + 1)
    }
}

/// The number of the first of March of a year, which is counted in cycles of
/// four hundred, hundred and four years, and when the year after it has a leap
/// day.
proof fn march_starts(e: int, c: int, f: int, o: int)
    requires
        e >= 0,
        0 <= c <= 3,
        0 <= f <= 24,
        0 <= o <= 3,
    ensures
        days_before_year(e * 400 + c * 100 + f * 4 + o) + 59 + (if is_leap(
            e * 400 + c * 100 + f * 4 + o,
        ) {
            1int
        } else {
            0int
        }) == 60 + e * 146097 + c * 36524 + f * 1461 + o * 365,
        is_leap(e * 400 + c * 100 + f * 4 + o + 1) <==> o == 3 && (f != 24 || c == 3),
{
    let y = e * 400 + c * 100 + f * 4 + o;
    assert((y + 3) / 4 == e * 100 + c * 25 + f + (o + 3) / 4);
    assert((y + 99) / 100 == e * 4 + c + (f * 4 + o + 99) / 100);
    assert((y + 399) / 400 == e + (c * 100 + f * 4 + o + 399) / 400);
    assert(y % 4 == o);
    assert((y % 100 == 0) == (f == 0 && o == 0));
    assert((y % 400 == 0) == (c == 0 && f == 0 && o == 0));
    assert(((y + 1) % 4 == 0) == (o == 3));
    assert(((y + 1) % 100 == 0) == (f == 24 && o == 3));
    assert(((y + 1) % 400 == 0) == (c == 3 && f == 24 && o == 3));
}

/// The day that lies `days` days after the first of January 1970.
pub fn day_after_epoch(days: u64) -> (r: Day)
    requires
        days <= 0xFFFF_FFFF_FFFF,
    ensures
        is_calendar_day(r),
        day_number(r) == days + 719528,
{
    // Days since the first of March of the year 0.
    let z: u64 = days + 719468;
    let era: u64 = z / 146097;
    let doe: u64 = z % 146097;
    let century: u64 = if doe == 146096 {
        3
    } else {
        doe / 36524
    };
    let doc: u64 = doe - century * 36524;
    let four: u64 = doc / 1461;
    let dof: u64 = doc - four * 1461;
    let one: u64 = if dof == 1460 {
        3
    } else {
        dof / 365
    };
    let doy: u64 = dof - one * 365;
    let march_year: u64 = era * 400 + century * 100 + four * 4 + one;
    let (month, day) = month_from_march(doy);
    let year: u64 = if month <= 2 {
        march_year + 1
    } else {
        march_year
    };
    proof {
        let y = march_year as int;
        march_starts(era as int, century as int, four as int, one as int);
        years_follow_each_other(y);
        assert(z == era * 146097 + century * 36524 + four * 1461 + one * 365 + doy);
        assert(days_before_month(year as int, month as int) + day - 1 == if month >= 3 {
            doy + 59 + (if is_leap(year as int) {
                1int
            } else {
                0int
            })
        } else {
            doy - 306
        });
        assert(day <= month_length(year as int, month as int)) by {
            if month > 2 {
                // The day 365 of the March year lies in February.
                assert(doy < 306);
            }
        }
    }
    Day { year, month, day }
}

/// Later years start later.
proof fn years_grow(a: int, b: int)
    requires
        0 <= a <= b,
    ensures
        days_before_year(a) <= days_before_year(b),
    decreases b - a,
{
    if a < b {
        years_follow_each_other(a);
        years_grow(a + 1, b);
    }
}

/// Later months start later.
proof fn months_grow(y: int, a: int, b: int)
    requires
        1 <= a <= b,
    ensures
        days_before_month(y, a) <= days_before_month(y, b),
    decreases b - a,
{
    if a < b {
        months_grow(y, a, b - 1);
    }
}

/// A day lies within its year.
proof fn day_lies_in_its_year(d: Day)
    requires
        is_calendar_day(d),
    ensures
        days_before_year(d.year as int) <= day_number(d) < days_before_year(d.year + 1),
{
    let y = d.year as int;
    years_follow_each_other(y);
    months_grow(y, 1, d.month as int);
    months_grow(y, d.month + 1, 13);
    assert(days_before_month(y, d.month + 1) == days_before_month(y, d.month as int)
        + month_length(y, d.month as int));
}

/// No two days of the calendar have one number.
pub proof fn day_numbers_are_unique(a: Day, b: Day)
    requires
        is_calendar_day(a),
        is_calendar_day(b),
        day_number(a) == day_number(b),
    ensures
        a == b,
{
    day_lies_in_its_year(a);
    day_lies_in_its_year(b);
    if a.year < b.year {
        years_grow(a.year + 1, b.year as int);
    }
    if b.year < a.year {
        years_grow(b.year + 1, a.year as int);
    }
    let y = a.year as int;
    if a.month < b.month {
        months_grow(y, a.month + 1, b.month as int);
        assert(days_before_month(y, a.month + 1) == days_before_month(y, a.month as int)
            + month_length(y, a.month as int));
    }
    if b.month < a.month {
        months_grow(y, b.month + 1, a.month as int);
        assert(days_before_month(y, b.month + 1) == days_before_month(y, b.month as int)
            + month_length(y, b.month as int));
    }
}

/// A day and a time of day, such as `2026-02-17 14:30`.
pub open spec fn date_text(d: Day, hour: int, minute: int) -> Seq<char> {
    zero_padded(decimal(d.year as nat), 4).push('-') + zero_padded(
        decimal(d.month as nat),
        2,
    ).push('-') + zero_padded(decimal(d.day as nat), 2).push(' ') + zero_padded(
        decimal(hour as nat),
        2,
    ).push(':') + zero_padded(decimal(minute as nat), 2)
}

/// The seconds that the local clock showed at a time, counted from the start
/// of 1970; `bias` is what it is behind.
pub open spec fn local_seconds(time: i128, bias: i64) -> int {
    time as int / 1_000_000_000 - bias
}

/// A time as local date and time of day; nothing for a time before 1970.
pub fn format_modified_time(time: i128, bias: i64) -> (r: String)
    requires
        time >= 0 ==> time as int / 1_000_000_000 <= i64::MAX && local_seconds(time, bias)
            <= i64::MAX,
    ensures
        time < 0 || local_seconds(time, bias) < 0 ==> r@.len() == 0,
        time >= 0 && local_seconds(time, bias) >= 0 ==> exists|d: Day| #[trigger]
            is_calendar_day(d) && day_number(d) == local_seconds(time, bias) / 86400 + 719528
                && r@ == date_text(
                d,
                local_seconds(time, bias) % 86400 / 3600,
                local_seconds(time, bias) % 3600 / 60,
            ),
{
    if time < 0 {
        return String::new();
    }
    let secs: i128 = time / 1_000_000_000;
    let local: i128 = secs - bias as i128;
    if local < 0 {
        return String::new();
    }
    let secs: u64 = local as u64;
    let day = day_after_epoch(secs / 86400);
    let hour: u64 = secs % 86400 / 3600;
    let minute: u64 = secs % 3600 / 60;
    let mut r = to_padded(day.year, 4);
    r.push('-');
    r.append(to_padded(day.month, 2).as_str());
    r.push('-');
    r.append(to_padded(day.day, 2).as_str());
    r.push(' ');
    r.append(to_padded(hour, 2).as_str());
    r.push(':');
    r.append(to_padded(minute, 2).as_str());
    assert(r@ =~= date_text(day, hour as int, minute as int));
    assert(is_calendar_day(day));
    r
}

/// What the local clock is behind, in seconds, given what the system says of
/// it in minutes.
pub fn clock_bias(bias: i32, standard: i32, daylight: i32, is_daylight: bool) -> (r: i64)
    requires
        i32::MIN <= bias + (if is_daylight {
            daylight as int
        } else {
            standard as int
        }) <= i32::MAX,
    ensures
        r == (bias + (if is_daylight {
            daylight as int
        } else {
            standard as int
        })) * 60,
{
    let extra: i32 = if is_daylight {
        daylight
    } else {
        standard
    };
    (bias + extra) as i64 * 60
}

// ---------------------------------------------------------------------------
// Ages
// ---------------------------------------------------------------------------

/// How old a file is.
#[derive(Clone, Copy, PartialEq, Eq, Structural)]
pub enum AgeBand {
    /// Its time lies ahead: a clock is wrong.
    Future,
    /// At most five minutes.
    Minutes,
    /// At most an hour.
    Hour,
    /// At most a day.
    Day,
    /// Less than a week.
    Week,
    /// A week or more.
    Old,
}

/// How old a file is, in nanoseconds.
pub open spec fn band_of_age(age: int) -> AgeBand {
    if age < 0 {
        AgeBand::Future
    } else if age >= 604_800_000_000_000 {
        AgeBand::Old
    } else if age <= 300_000_000_000 {
        AgeBand::Minutes
    } else if age <= 3_600_000_000_000 {
        AgeBand::Hour
    } else if age <= 86_400_000_000_000 {
        AgeBand::Day
    } else {
        AgeBand::Week
    }
}

/// How old a file is that was changed at `modified`.
pub fn age_band(modified: i128, now: i128) -> (r: AgeBand)
    ensures
        r == band_of_age(now - modified),
{
    if modified > now {
        return AgeBand::Future;
    }
    let age: i128 = match now.checked_sub(modified) {
        Some(n) => n,
        None => {
            return AgeBand::Old;
        },
    };
    if age >= 604_800_000_000_000 {
        AgeBand::Old
    } else if age <= 300_000_000_000 {
        AgeBand::Minutes
    } else if age <= 3_600_000_000_000 {
        AgeBand::Hour
    } else if age <= 86_400_000_000_000 {
        AgeBand::Day
    } else {
        AgeBand::Week
    }
}

/// The colors between which the background of a date lies, and the ages in
/// seconds at which it has them.
pub fn band_colors(band: AgeBand) -> (r: ((u32, Rgb), (u32, Rgb)))
    ensures
        r == match band {
            AgeBand::Future => (
                (0u32, Rgb { r: 140, g: 80, b: 200 }),
                (0u32, Rgb { r: 140, g: 80, b: 200 }),
            ),
            AgeBand::Minutes => (
                (0u32, Rgb { r: 200, g: 240, b: 200 }),
                (300u32, Rgb { r: 150, g: 218, b: 150 }),
            ),
            AgeBand::Hour => (
                (300u32, Rgb { r: 150, g: 218, b: 150 }),
                (3600u32, Rgb { r: 90, g: 180, b: 90 }),
            ),
            AgeBand::Day => (
                (3600u32, Rgb { r: 90, g: 180, b: 90 }),
                (86400u32, Rgb { r: 180, g: 210, b: 130 }),
            ),
            AgeBand::Week => (
                (86400u32, Rgb { r: 180, g: 210, b: 130 }),
                (604800u32, Rgb { r: 255, g: 200, b: 140 }),
            ),
            AgeBand::Old => (
                (604800u32, Rgb { r: 255, g: 175, b: 100 }),
                (604800u32, Rgb { r: 255, g: 175, b: 100 }),
            ),
        },
{
    match band {
        AgeBand::Future => {
            ((0, Rgb { r: 140, g: 80, b: 200 }), (0, Rgb { r: 140, g: 80, b: 200 }))
        },
        AgeBand::Minutes => {
            ((0, Rgb { r: 200, g: 240, b: 200 }), (300, Rgb { r: 150, g: 218, b: 150 }))
        },
        AgeBand::Hour => {
            ((300, Rgb { r: 150, g: 218, b: 150 }), (3600, Rgb { r: 90, g: 180, b: 90 }))
        },
        AgeBand::Day => {
            ((3600, Rgb { r: 90, g: 180, b: 90 }), (86400, Rgb { r: 180, g: 210, b: 130 }))
        },
        AgeBand::Week => {
            ((86400, Rgb { r: 180, g: 210, b: 130 }), (604800, Rgb { r: 255, g: 200, b: 140 }))
        },
        AgeBand::Old => {
            ((604800, Rgb { r: 255, g: 175, b: 100 }), (604800, Rgb { r: 255, g: 175, b: 100 }))
        },
    }
}

// ---------------------------------------------------------------------------
// What names tell
// ---------------------------------------------------------------------------

/// Images and videos are told by what follows the last dot of a name, in whatever case and whatever
/// stands before it; a name without a dot is neither.
pub proof fn pictures_are_told_by_what_follows_the_last_dot(start: Seq<char>, ext: Seq<char>)
    requires
        forall|i: int| 0 <= i < ext.len() ==> #[trigger] ext[i] != '.',
    ensures
        image_name(start + seq!['.'] + ext) <==> ({
            let e = ascii_lower(ext);
            e == "jpg"@ || e == "jpeg"@ || e == "png"@ || e == "bmp"@ || e == "gif"@
            || e == "webp"@
        }),
        video_name(start + seq!['.'] + ext) <==> ({
            let e = ascii_lower(ext);
            e == "mp4"@ || e == "avi"@ || e == "mkv"@ || e == "mov"@ || e == "wmv"@
            || e == "flv"@ || e == "webm"@ || e == "m4v"@ || e == "ogv"@
        }),
        !image_name(ext),
        !video_name(ext),
{
    let name = start + seq!['.'] + ext;
    crate::text::last_position_holds(name, '.');
    crate::text::last_position_holds(ext, '.');
    let at = start.len() as int;
    assert(name[at] == '.');
    assert(forall|k: int| at < k < name.len() ==> name[k] == ext[k - at - 1]);
    assert(last_position(name, '.') == Some(at));
    assert(name.skip(at + 1) =~= ext);
}

/// Each archive that can be unpacked, each image that can be shown small and each video has the
/// color of its kind.
pub proof fn kinds_of_files_have_their_color(e: Seq<char>)
    ensures
        is_image_extension(e) ==> is_images_ext(seq!['.'] + e),
        is_video_extension(e) ==> is_videos_ext(seq!['.'] + e),
        is_archive_extension(e) ==> is_archives_ext(seq!['.'] + e),
        is_archive_extension(e)
            <==> e == "7z"@ || e == "zip"@ || e == "rar"@ || e == "tar"@ || e == "gz"@ || e == "tgz"@
            || e == "bz2"@ || e == "xz"@ || e == "iso"@,
{
    reveal_strlit("jpg");
    reveal_strlit("jpeg");
    reveal_strlit("png");
    reveal_strlit("bmp");
    reveal_strlit("gif");
    reveal_strlit("webp");
    reveal_strlit("mp4");
    reveal_strlit("avi");
    reveal_strlit("mkv");
    reveal_strlit("mov");
    reveal_strlit("wmv");
    reveal_strlit("flv");
    reveal_strlit("webm");
    reveal_strlit("m4v");
    reveal_strlit("ogv");
    reveal_strlit("7z");
    reveal_strlit("zip");
    reveal_strlit("rar");
    reveal_strlit("tar");
    reveal_strlit("gz");
    reveal_strlit("tgz");
    reveal_strlit("bz2");
    reveal_strlit("xz");
    reveal_strlit("iso");
    reveal_strlit(".jpg");
    reveal_strlit(".jpeg");
    reveal_strlit(".png");
    reveal_strlit(".bmp");
    reveal_strlit(".gif");
    reveal_strlit(".webp");
    reveal_strlit(".mp4");
    reveal_strlit(".avi");
    reveal_strlit(".mkv");
    reveal_strlit(".mov");
    reveal_strlit(".wmv");
    reveal_strlit(".flv");
    reveal_strlit(".webm");
    reveal_strlit(".m4v");
    reveal_strlit(".ogv");
    reveal_strlit(".7z");
    reveal_strlit(".zip");
    reveal_strlit(".rar");
    reveal_strlit(".tar");
    reveal_strlit(".gz");
    reveal_strlit(".tgz");
    reveal_strlit(".bz2");
    reveal_strlit(".xz");
    reveal_strlit(".iso");
    let d = seq!['.'] + e;
    assert(e == "jpg"@ ==> d =~= ".jpg"@);
    assert(e == "jpeg"@ ==> d =~= ".jpeg"@);
    assert(e == "png"@ ==> d =~= ".png"@);
    assert(e == "bmp"@ ==> d =~= ".bmp"@);
    assert(e == "gif"@ ==> d =~= ".gif"@);
    assert(e == "webp"@ ==> d =~= ".webp"@);
    assert(e == "mp4"@ ==> d =~= ".mp4"@);
    assert(e == "avi"@ ==> d =~= ".avi"@);
    assert(e == "mkv"@ ==> d =~= ".mkv"@);
    assert(e == "mov"@ ==> d =~= ".mov"@);
    assert(e == "wmv"@ ==> d =~= ".wmv"@);
    assert(e == "flv"@ ==> d =~= ".flv"@);
    assert(e == "webm"@ ==> d =~= ".webm"@);
    assert(e == "m4v"@ ==> d =~= ".m4v"@);
    assert(e == "ogv"@ ==> d =~= ".ogv"@);
    assert(e == "7z"@ ==> d =~= ".7z"@);
    assert(e == "zip"@ ==> d =~= ".zip"@);
    assert(e == "rar"@ ==> d =~= ".rar"@);
    assert(e == "tar"@ ==> d =~= ".tar"@);
    assert(e == "gz"@ ==> d =~= ".gz"@);
    assert(e == "tgz"@ ==> d =~= ".tgz"@);
    assert(e == "bz2"@ ==> d =~= ".bz2"@);
    assert(e == "xz"@ ==> d =~= ".xz"@);
    assert(e == "iso"@ ==> d =~= ".iso"@);
}

/// A color on a dark background is lighter than the one on a light background, and what is
/// highlighted has none.
pub proof fn colors_can_be_read(ext: Seq<char>, dark_mode: bool)
    ensures
        extension_colors(ext) matches Some((dark, light)) ==> dark.r >= light.r && dark.g >= light.g
            && dark.b >= light.b && dark != light,
        parts_color(ext, true, dark_mode) is None,
        (parts_color(ext, false, true) matches Some(d) && parts_color(ext, false, false) matches Some(l)
            && (d.r < l.r || d.g < l.g || d.b < l.b)) ==> false,
        parts_color(ext, false, true) is Some <==> parts_color(ext, false, false) is Some,
{
}

/// A name is split before its last dot, and a name that is cut keeps its extension behind the mark
/// of the cut; the way up has no extension.
pub proof fn a_cut_name_keeps_its_extension(stem: Seq<char>, ext: Seq<char>, kept: nat)
    requires
        stem.len() > 0,
        forall|i: int| 0 <= i < ext.len() ==> #[trigger] ext[i] != '.',
        !crate::listing::shows_the_way_up(
            crate::types::EntryView {
                name: stem + seq!['.'] + ext,
                is_dir: false,
                modified: None,
            },
        ),
        kept <= stem.len(),
    ensures
        split_name(stem + seq!['.'] + ext) == (stem, seq!['.'] + ext),
        cut_name(stem + seq!['.'] + ext, kept) == stem.take(kept as int) + "…"@ + (seq!['.'] + ext),
{
    let name = stem + seq!['.'] + ext;
    crate::listing::the_way_up_is_told_by_its_name(
        crate::types::EntryView { name, is_dir: false, modified: None },
    );
    crate::text::last_position_holds(name, '.');
    let at = stem.len() as int;
    assert(name[at] == '.');
    assert(forall|k: int| at < k < name.len() ==> name[k] == ext[k - at - 1]);
    assert(last_position(name, '.') == Some(at));
    assert(name.take(at) =~= stem);
    assert(name.skip(at) =~= seq!['.'] + ext);
}

/// Days follow each other: the next day of a month, the first day of the next month, or the first
/// day of the next year is one day later. A year has its extra day in February, every fourth year
/// but not in three of four centuries.
#[verifier::spinoff_prover]
#[verifier::rlimit(50)]
pub proof fn days_follow_each_other(d: Day)
    requires
        is_calendar_day(d),
        d.year < u64::MAX,
    ensures
        d.month == 12 && d.day == 31 ==> day_number(
            Day { year: (d.year + 1) as u64, month: 1, day: 1 },
        ) == day_number(d) + 1,
        d.month < 12 && d.day == month_length(d.year as int, d.month as int) ==> day_number(
            Day { year: d.year, month: (d.month + 1) as u64, day: 1 },
        ) == day_number(d) + 1,
        d.day < month_length(d.year as int, d.month as int) ==> day_number(
            Day { day: (d.day + 1) as u64, ..d },
        ) == day_number(d) + 1,
        d.month == 1 || d.month == 3 || d.month == 5 || d.month == 7 || d.month == 8 || d.month == 10
            || d.month == 12 ==> month_length(d.year as int, d.month as int) == 31,
        d.month == 4 || d.month == 6 || d.month == 9 || d.month == 11 ==> month_length(
            d.year as int,
            d.month as int,
        ) == 30,
        d.month == 2 ==> month_length(d.year as int, 2) == if d.year as int % 400 == 0 || (d.year
            as int % 4 == 0 && d.year as int % 100 != 0) {
            29int
        } else {
            28int
        },
{
    years_follow_each_other(d.year as int);
    assert(days_before_month(d.year as int, 13) == days_before_month(d.year as int, 12)
        + month_length(d.year as int, 12));
}

/// A file is told to be minutes old up to five minutes, then an hour, a day and a week old up to
/// those, and old from then on; one of the future is told as such.
pub proof fn ages_are_told_in_bands(minutes: int)
    ensures
        minutes < 0 ==> band_of_age(minutes * 60_000_000_000) == AgeBand::Future,
        0 <= minutes <= 5 ==> band_of_age(minutes * 60_000_000_000) == AgeBand::Minutes,
        5 < minutes <= 60 ==> band_of_age(minutes * 60_000_000_000) == AgeBand::Hour,
        60 < minutes <= 24 * 60 ==> band_of_age(minutes * 60_000_000_000) == AgeBand::Day,
        24 * 60 < minutes < 7 * 24 * 60 ==> band_of_age(minutes * 60_000_000_000) == AgeBand::Week,
        7 * 24 * 60 <= minutes ==> band_of_age(minutes * 60_000_000_000) == AgeBand::Old,
{
}

/// A date is written with its numbers at their places, with zeros before them.
pub proof fn a_date_is_written_in_order(d: Day, hour: int, minute: int)
    requires
        d.year <= 9999,
        is_calendar_day(d),
        0 <= hour < 24,
        0 <= minute < 60,
    ensures
        ({
            let t = date_text(d, hour, minute);
            &&& t.len() == 16
            &&& t[4] == '-' && t[7] == '-' && t[10] == ' ' && t[13] == ':'
            &&& crate::numerals::digits_value(t.subrange(0, 4), 10) == d.year
            &&& crate::numerals::digits_value(t.subrange(5, 7), 10) == d.month
            &&& crate::numerals::digits_value(t.subrange(8, 10), 10) == d.day
            &&& crate::numerals::digits_value(t.subrange(11, 13), 10) == hour
            &&& crate::numerals::digits_value(t.subrange(14, 16), 10) == minute
        }),
{
    crate::numerals::zeros_before_a_number_do_not_count(d.year as nat, 4);
    crate::numerals::zeros_before_a_number_do_not_count(d.month as nat, 2);
    crate::numerals::zeros_before_a_number_do_not_count(d.day as nat, 2);
    crate::numerals::zeros_before_a_number_do_not_count(hour as nat, 2);
    crate::numerals::zeros_before_a_number_do_not_count(minute as nat, 2);
    crate::numerals::short_numbers_have_few_digits(d.year as nat, 4);
    crate::numerals::short_numbers_have_few_digits(d.month as nat, 2);
    crate::numerals::short_numbers_have_few_digits(d.day as nat, 2);
    crate::numerals::short_numbers_have_few_digits(hour as nat, 2);
    crate::numerals::short_numbers_have_few_digits(minute as nat, 2);
    let t = date_text(d, hour, minute);
    assert(t.subrange(0, 4) =~= zero_padded(decimal(d.year as nat), 4));
    assert(t.subrange(5, 7) =~= zero_padded(decimal(d.month as nat), 2));
    assert(t.subrange(8, 10) =~= zero_padded(decimal(d.day as nat), 2));
    assert(t.subrange(11, 13) =~= zero_padded(decimal(hour as nat), 2));
    assert(t.subrange(14, 16) =~= zero_padded(decimal(minute as nat), 2));
}

/// Files that an editor for sources opens are told by their extension.
pub proof fn sources_are_told_by_their_extension(e: Seq<char>)
    ensures
        is_code_extension(e)
            <==> e == "rs"@ || e == "js"@ || e == "ts"@ || e == "jsx"@ || e == "tsx"@ || e == "py"@
            || e == "java"@ || e == "c"@ || e == "cpp"@ || e == "h"@ || e == "hpp"@
            || e == "cs"@ || e == "go"@ || e == "rb"@ || e == "php"@ || e == "html"@
            || e == "css"@ || e == "scss"@ || e == "json"@ || e == "xml"@ || e == "yaml"@
            || e == "yml"@ || e == "toml"@ || e == "md"@ || e == "txt"@ || e == "sh"@
            || e == "bat"@ || e == "ps1"@ || e == "sql"@ || e == "vue"@ || e == "svelte"@,
        is_code_name(Some(e)) == is_code_extension(e),
        !is_code_name(None),
        is_archive_name(Some(e)) == is_archive_extension(e),
        !is_archive_name(None),
{
}

/// The extension of a name in small letters is what follows its last dot.
pub proof fn the_extension_follows_the_last_dot(stem: Seq<char>, ext: Seq<char>)
    requires
        stem.len() > 0,
        forall|i: int| 0 <= i < ext.len() ==> #[trigger] ext[i] != '.',
    ensures
        lower_extension(stem + seq!['.'] + ext) == Some(lowercase(ext)),
        lower_extension(ext) is None,
{
    crate::paths::the_last_dot_splits_a_name(stem, ext);
}

/// Times are counted in whole seconds of the local clock, and days from the start of 1970.
pub proof fn times_are_counted_in_seconds(seconds: i128, rest: i128, bias: i64)
    requires
        0 <= rest < 1_000_000_000,
        0 <= seconds,
        seconds * 1_000_000_000 + rest <= i128::MAX,
    ensures
        local_seconds((seconds * 1_000_000_000 + rest) as i128, bias) == seconds - bias,
        day_number(Day { year: 1970, month: 1, day: 1 }) == 719528,
{
    assert((seconds * 1_000_000_000 + rest) / 1_000_000_000 == seconds);
    assert(days_before_month(1970, 1) == 0);
}

} // verus!
