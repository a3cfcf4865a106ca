//! The files of a directory as entries: each file's icon follows the kind of
//! content that its extension names.
use vstd::prelude::*;
use crate::text::{
    bytes_to_string_lossy, chars_of, find_last_char, lowercase_text, range_eq_str,
    rsplit_once_seq, str_to_lowercase, string_from_literal, string_of_range, utf8_lossy_text,
};
use crate::ui::entry::{Entry, EntryIcon};

verus! {

/// The files of a directory as a source of entries.
pub struct FileProvider;

/// The entry that lists the file at `path`, whose file name is `name`: its
/// path is its identifier; it shows its name and, below, its path, both read
/// as UTF-8 with replacement.
pub fn file_entry<H>(path: Vec<u8>, name: &[u8], icon: H) -> (e: Entry<H>)
    ensures
        e.id@ == path@,
        e.main@ == utf8_lossy_text(name@),
        e.secondary matches Some(s) && s@ == utf8_lossy_text(path@),
        e.icon == EntryIcon::Handle(icon),
{
    let main = bytes_to_string_lossy(name);
    let secondary = bytes_to_string_lossy(path.as_slice());
    Entry::new(path, main, Some(secondary), EntryIcon::Handle(icon))
}

/// The entry that leads to the parent directory at `parent`: it shows `..`
/// and, below, the parent's path.
pub fn parent_entry<H>(parent: Vec<u8>, icon: H) -> (e: Entry<H>)
    ensures
        e.id@ == parent@,
        e.main@ == ".."@,
        e.secondary matches Some(s) && s@ == utf8_lossy_text(parent@),
        e.icon == EntryIcon::Handle(icon),
{
    let main = string_from_literal("..");
    let secondary = bytes_to_string_lossy(parent.as_slice());
    Entry::new(parent, main, Some(secondary), EntryIcon::Handle(icon))
}

/// The kind of content that a file extension names.
#[derive(Debug, Clone, Copy, PartialEq, Eq, Structural)]
pub enum MimeType {
    Text,
    Application,
    Image,
    Audio,
    Video,
    Font,
    Multipart,
    Model,
    Unknown,
}

/// The generic icons that stand for a file.
#[derive(Debug, Clone, Copy, PartialEq, Eq, Structural)]
pub enum GenericIcon {
    Folder,
    Text,
    ApplicationDefault,
    Image,
    Audio,
    Video,
    Font,
    Multipart,
    Model,
}

/// The kind of content that the extension `ext` names.
pub open spec fn mime_of_extension(ext: Seq<char>) -> MimeType {
    if ext == "txt"@ || ext == "md"@ || ext == "html"@ || ext == "css"@ || ext == "csv"@ {
        MimeType::Text
    } else if ext == "json"@ || ext == "pdf"@ || ext == "zip"@ || ext == "wasm"@ || ext
        == "xml"@ {
        MimeType::Application
    } else if ext == "jpg"@ || ext == "jpeg"@ || ext == "png"@ || ext == "gif"@ || ext
        == "webp"@ || ext == "svg"@ {
        MimeType::Image
    } else if ext == "mp3"@ || ext == "wav"@ || ext == "ogg"@ || ext == "m4a"@ {
        MimeType::Audio
    } else if ext == "mp4"@ || ext == "webm"@ || ext == "avi"@ || ext == "mov"@ {
        MimeType::Video
    } else if ext == "ttf"@ || ext == "otf"@ || ext == "woff"@ || ext == "woff2"@ {
        MimeType::Font
    } else if ext == "mime"@ || ext == "mhtml"@ {
        MimeType::Multipart
    } else if ext == "obj"@ || ext == "stl"@ || ext == "glb"@ || ext == "gltf"@ || ext
        == "3ds"@ {
        MimeType::Model
    } else {
        MimeType::Unknown
    }
}

/// The extensions of each kind of content, as lists.
pub open spec fn extensions_of(m: MimeType) -> Seq<Seq<char>> {
    match m {
        MimeType::Text => seq!["txt"@, "md"@, "html"@, "css"@, "csv"@],
        MimeType::Application => seq!["json"@, "pdf"@, "zip"@, "wasm"@, "xml"@],
        MimeType::Image => seq!["jpg"@, "jpeg"@, "png"@, "gif"@, "webp"@, "svg"@],
        MimeType::Audio => seq!["mp3"@, "wav"@, "ogg"@, "m4a"@],
        MimeType::Video => seq!["mp4"@, "webm"@, "avi"@, "mov"@],
        MimeType::Font => seq!["ttf"@, "otf"@, "woff"@, "woff2"@],
        MimeType::Multipart => seq!["mime"@, "mhtml"@],
        MimeType::Model => seq!["obj"@, "stl"@, "glb"@, "gltf"@, "3ds"@],
        MimeType::Unknown => Seq::empty(),
    }
}

/// Every extension of a kind's list names that kind: txt, md, html, css, csv
/// are text; json, pdf, zip, wasm, xml are application data; jpg, jpeg, png,
/// gif, webp, svg are images; mp3, wav, ogg, m4a are audio; mp4, webm, avi,
/// mov are video; ttf, otf, woff, woff2 are fonts; mime, mhtml are multipart;
/// obj, stl, glb, gltf, 3ds are 3D models.
pub proof fn lemma_extension_table(m: MimeType)
    ensures
        forall|j: int| 0 <= j < extensions_of(m).len() ==> mime_of_extension(#[trigger] extensions_of(m)[j]) == m,
{
    reveal_strlit("txt");
    assert("txt"@.len() == 3);
    assert("txt"@[0] == 't');
    assert("txt"@[1] == 'x');
    assert("txt"@[2] == 't');
    reveal_strlit("md");
    assert("md"@.len() == 2);
    assert("md"@[0] == 'm');
    assert("md"@[1] == 'd');
    reveal_strlit("html");
    assert("html"@.len() == 4);
    assert("html"@[0] == 'h');
    assert("html"@[1] == 't');
    assert("html"@[2] == 'm');
    assert("html"@[3] == 'l');
    reveal_strlit("css");
    assert("css"@.len() == 3);
    assert("css"@[0] == 'c');
    assert("css"@[1] == 's');
    assert("css"@[2] == 's');
    reveal_strlit("csv");
    assert("csv"@.len() == 3);
    assert("csv"@[0] == 'c');
    assert("csv"@[1] == 's');
    assert("csv"@[2] == 'v');
    reveal_strlit("json");
    assert("json"@.len() == 4);
    assert("json"@[0] == 'j');
    assert("json"@[1] == 's');
    assert("json"@[2] == 'o');
    assert("json"@[3] == 'n');
    reveal_strlit("pdf");
    assert("pdf"@.len() == 3);
    assert("pdf"@[0] == 'p');
    assert("pdf"@[1] == 'd');
    assert("pdf"@[2] == 'f');
    reveal_strlit("zip");
    assert("zip"@.len() == 3);
    assert("zip"@[0] == 'z');
    assert("zip"@[1] == 'i');
    assert("zip"@[2] == 'p');
    reveal_strlit("wasm");
    assert("wasm"@.len() == 4);
    assert("wasm"@[0] == 'w');
    assert("wasm"@[1] == 'a');
    assert("wasm"@[2] == 's');
    assert("wasm"@[3] == 'm');
    reveal_strlit("xml");
    assert("xml"@.len() == 3);
    assert("xml"@[0] == 'x');
    assert("xml"@[1] == 'm');
    assert("xml"@[2] == 'l');
    reveal_strlit("jpg");
    assert("jpg"@.len() == 3);
    assert("jpg"@[0] == 'j');
    assert("jpg"@[1] == 'p');
    assert("jpg"@[2] == 'g');
    reveal_strlit("jpeg");
    assert("jpeg"@.len() == 4);
    assert("jpeg"@[0] == 'j');
    assert("jpeg"@[1] == 'p');
    assert("jpeg"@[2] == 'e');
    assert("jpeg"@[3] == 'g');
    reveal_strlit("png");
    assert("png"@.len() == 3);
    assert("png"@[0] == 'p');
    assert("png"@[1] == 'n');
    assert("png"@[2] == 'g');
    reveal_strlit("gif");
    assert("gif"@.len() == 3);
    assert("gif"@[0] == 'g');
    assert("gif"@[1] == 'i');
    assert("gif"@[2] == 'f');
    reveal_strlit("webp");
    assert("webp"@.len() == 4);
    assert("webp"@[0] == 'w');
    assert("webp"@[1] == 'e');
    assert("webp"@[2] == 'b');
    assert("webp"@[3] == 'p');
    reveal_strlit("svg");
    assert("svg"@.len() == 3);
    assert("svg"@[0] == 's');
    assert("svg"@[1] == 'v');
    assert("svg"@[2] == 'g');
    reveal_strlit("mp3");
    assert("mp3"@.len() == 3);
    assert("mp3"@[0] == 'm');
    assert("mp3"@[1] == 'p');
    assert("mp3"@[2] == '3');
    reveal_strlit("wav");
    assert("wav"@.len() == 3);
    assert("wav"@[0] == 'w');
    assert("wav"@[1] == 'a');
    assert("wav"@[2] == 'v');
    reveal_strlit("ogg");
    assert("ogg"@.len() == 3);
    assert("ogg"@[0] == 'o');
    assert("ogg"@[1] == 'g');
    assert("ogg"@[2] == 'g');
    reveal_strlit("m4a");
    assert("m4a"@.len() == 3);
    assert("m4a"@[0] == 'm');
    assert("m4a"@[1] == '4');
    assert("m4a"@[2] == 'a');
    reveal_strlit("mp4");
    assert("mp4"@.len() == 3);
    assert("mp4"@[0] == 'm');
    assert("mp4"@[1] == 'p');
    assert("mp4"@[2] == '4');
    reveal_strlit("webm");
    assert("webm"@.len() == 4);
    assert("webm"@[0] == 'w');
    assert("webm"@[1] == 'e');
    assert("webm"@[2] == 'b');
    assert("webm"@[3] == 'm');
    reveal_strlit("avi");
    assert("avi"@.len() == 3);
    assert("avi"@[0] == 'a');
    assert("avi"@[1] == 'v');
    assert("avi"@[2] == 'i');
    reveal_strlit("mov");
    assert("mov"@.len() == 3);
    assert("mov"@[0] == 'm');
    assert("mov"@[1] == 'o');
    assert("mov"@[2] == 'v');
    reveal_strlit("ttf");
    assert("ttf"@.len() == 3);
    assert("ttf"@[0] == 't');
    assert("ttf"@[1] == 't');
    assert("ttf"@[2] == 'f');
    reveal_strlit("otf");
    assert("otf"@.len() == 3);
    assert("otf"@[0] == 'o');
    assert("otf"@[1] == 't');
    assert("otf"@[2] == 'f');
    reveal_strlit("woff");
    assert("woff"@.len() == 4);
    assert("woff"@[0] == 'w');
    assert("woff"@[1] == 'o');
    assert("woff"@[2] == 'f');
    assert("woff"@[3] == 'f');
    reveal_strlit("woff2");
    assert("woff2"@.len() == 5);
    assert("woff2"@[0] == 'w');
    assert("woff2"@[1] == 'o');
    assert("woff2"@[2] == 'f');
    assert("woff2"@[3] == 'f');
    assert("woff2"@[4] == '2');
    reveal_strlit("mime");
    assert("mime"@.len() == 4);
    assert("mime"@[0] == 'm');
    assert("mime"@[1] == 'i');
    assert("mime"@[2] == 'm');
    assert("mime"@[3] == 'e');
    reveal_strlit("mhtml");
    assert("mhtml"@.len() == 5);
    assert("mhtml"@[0] == 'm');
    assert("mhtml"@[1] == 'h');
    assert("mhtml"@[2] == 't');
    assert("mhtml"@[3] == 'm');
    assert("mhtml"@[4] == 'l');
    reveal_strlit("obj");
    assert("obj"@.len() == 3);
    assert("obj"@[0] == 'o');
    assert("obj"@[1] == 'b');
    assert("obj"@[2] == 'j');
    reveal_strlit("stl");
    assert("stl"@.len() == 3);
    assert("stl"@[0] == 's');
    assert("stl"@[1] == 't');
    assert("stl"@[2] == 'l');
    reveal_strlit("glb");
    assert("glb"@.len() == 3);
    assert("glb"@[0] == 'g');
    assert("glb"@[1] == 'l');
    assert("glb"@[2] == 'b');
    reveal_strlit("gltf");
    assert("gltf"@.len() == 4);
    assert("gltf"@[0] == 'g');
    assert("gltf"@[1] == 'l');
    assert("gltf"@[2] == 't');
    assert("gltf"@[3] == 'f');
    reveal_strlit("3ds");
    assert("3ds"@.len() == 3);
    assert("3ds"@[0] == '3');
    assert("3ds"@[1] == 'd');
    assert("3ds"@[2] == 's');
    assert(mime_of_extension("txt"@) == MimeType::Text);
    assert(mime_of_extension("md"@) == MimeType::Text);
    assert(mime_of_extension("html"@) == MimeType::Text);
    assert(mime_of_extension("css"@) == MimeType::Text);
    assert(mime_of_extension("csv"@) == MimeType::Text);
    assert(mime_of_extension("json"@) == MimeType::Application);
    assert(mime_of_extension("pdf"@) == MimeType::Application);
    assert(mime_of_extension("zip"@) == MimeType::Application);
    assert(mime_of_extension("wasm"@) == MimeType::Application);
    assert(mime_of_extension("xml"@) == MimeType::Application);
    assert(mime_of_extension("jpg"@) == MimeType::Image);
    assert(mime_of_extension("jpeg"@) == MimeType::Image);
    assert(mime_of_extension("png"@) == MimeType::Image);
    assert(mime_of_extension("gif"@) == MimeType::Image);
    assert(mime_of_extension("webp"@) == MimeType::Image);
    assert(mime_of_extension("svg"@) == MimeType::Image);
    assert(mime_of_extension("mp3"@) == MimeType::Audio);
    assert(mime_of_extension("wav"@) == MimeType::Audio);
    assert(mime_of_extension("ogg"@) == MimeType::Audio);
    assert(mime_of_extension("m4a"@) == MimeType::Audio);
    assert(mime_of_extension("mp4"@) == MimeType::Video);
    assert(mime_of_extension("webm"@) == MimeType::Video);
    assert(mime_of_extension("avi"@) == MimeType::Video);
    assert(mime_of_extension("mov"@) == MimeType::Video);
    assert(mime_of_extension("ttf"@) == MimeType::Font);
    assert(mime_of_extension("otf"@) == MimeType::Font);
    assert(mime_of_extension("woff"@) == MimeType::Font);
    assert(mime_of_extension("woff2"@) == MimeType::Font);
    assert(mime_of_extension("mime"@) == MimeType::Multipart);
    assert(mime_of_extension("mhtml"@) == MimeType::Multipart);
    assert(mime_of_extension("obj"@) == MimeType::Model);
    assert(mime_of_extension("stl"@) == MimeType::Model);
    assert(mime_of_extension("glb"@) == MimeType::Model);
    assert(mime_of_extension("gltf"@) == MimeType::Model);
    assert(mime_of_extension("3ds"@) == MimeType::Model);
    assert forall|j: int| 0 <= j < extensions_of(m).len() implies mime_of_extension(#[trigger] extensions_of(m)[j]) == m by {
        match m {
            MimeType::Text => {
                if j == 0 { assert(extensions_of(m)[j] == "txt"@); 
                } else if j == 1 { assert(extensions_of(m)[j] == "md"@); 
                } else if j == 2 { assert(extensions_of(m)[j] == "html"@); 
                } else if j == 3 { assert(extensions_of(m)[j] == "css"@); 
                } else if j == 4 { assert(extensions_of(m)[j] == "csv"@); 
                }
            },
            MimeType::Application => {
                if j == 0 { assert(extensions_of(m)[j] == "json"@); 
                } else if j == 1 { assert(extensions_of(m)[j] == "pdf"@); 
                } else if j == 2 { assert(extensions_of(m)[j] == "zip"@); 
                } else if j == 3 { assert(extensions_of(m)[j] == "wasm"@); 
                } else if j == 4 { assert(extensions_of(m)[j] == "xml"@); 
                }
            },
            MimeType::Image => {
                if j == 0 { assert(extensions_of(m)[j] == "jpg"@); 
                } else if j == 1 { assert(extensions_of(m)[j] == "jpeg"@); 
                } else if j == 2 { assert(extensions_of(m)[j] == "png"@); 
                } else if j == 3 { assert(extensions_of(m)[j] == "gif"@); 
                } else if j == 4 { assert(extensions_of(m)[j] == "webp"@); 
                } else if j == 5 { assert(extensions_of(m)[j] == "svg"@); 
                }
            },
            MimeType::Audio => {
                if j == 0 { assert(extensions_of(m)[j] == "mp3"@); 
                } else if j == 1 { assert(extensions_of(m)[j] == "wav"@); 
                } else if j == 2 { assert(extensions_of(m)[j] == "ogg"@); 
                } else if j == 3 { assert(extensions_of(m)[j] == "m4a"@); 
                }
            },
            MimeType::Video => {
                if j == 0 { assert(extensions_of(m)[j] == "mp4"@); 
                } else if j == 1 { assert(extensions_of(m)[j] == "webm"@); 
                } else if j == 2 { assert(extensions_of(m)[j] == "avi"@); 
                } else if j == 3 { assert(extensions_of(m)[j] == "mov"@); 
                }
            },
            MimeType::Font => {
                if j == 0 { assert(extensions_of(m)[j] == "ttf"@); 
                } else if j == 1 { assert(extensions_of(m)[j] == "otf"@); 
                } else if j == 2 { assert(extensions_of(m)[j] == "woff"@); 
                } else if j == 3 { assert(extensions_of(m)[j] == "woff2"@); 
                }
            },
            MimeType::Multipart => {
                if j == 0 { assert(extensions_of(m)[j] == "mime"@); 
                } else if j == 1 { assert(extensions_of(m)[j] == "mhtml"@); 
                }
            },
            MimeType::Model => {
                if j == 0 { assert(extensions_of(m)[j] == "obj"@); 
                } else if j == 1 { assert(extensions_of(m)[j] == "stl"@); 
                } else if j == 2 { assert(extensions_of(m)[j] == "glb"@); 
                } else if j == 3 { assert(extensions_of(m)[j] == "gltf"@); 
                } else if j == 4 { assert(extensions_of(m)[j] == "3ds"@); 
                }
            },
            MimeType::Unknown => {},
        }
    }
}

/// An extension on none of the lists names no known kind of content.
pub proof fn lemma_unlisted_extensions_are_unknown(ext: Seq<char>)
    requires
        forall|m: MimeType| !(#[trigger] extensions_of(m)).contains(ext),
    ensures
        mime_of_extension(ext) == MimeType::Unknown,
{
    assert(!extensions_of(MimeType::Text).contains(ext));
    assert(extensions_of(MimeType::Text)[0] == "txt"@);
    assert(extensions_of(MimeType::Text)[1] == "md"@);
    assert(extensions_of(MimeType::Text)[2] == "html"@);
    assert(extensions_of(MimeType::Text)[3] == "css"@);
    assert(extensions_of(MimeType::Text)[4] == "csv"@);
    assert(!extensions_of(MimeType::Application).contains(ext));
    assert(extensions_of(MimeType::Application)[0] == "json"@);
    assert(extensions_of(MimeType::Application)[1] == "pdf"@);
    assert(extensions_of(MimeType::Application)[2] == "zip"@);
    assert(extensions_of(MimeType::Application)[3] == "wasm"@);
    assert(extensions_of(MimeType::Application)[4] == "xml"@);
    assert(!extensions_of(MimeType::Image).contains(ext));
    assert(extensions_of(MimeType::Image)[0] == "jpg"@);
    assert(extensions_of(MimeType::Image)[1] == "jpeg"@);
    assert(extensions_of(MimeType::Image)[2] == "png"@);
    assert(extensions_of(MimeType::Image)[3] == "gif"@);
    assert(extensions_of(MimeType::Image)[4] == "webp"@);
    assert(extensions_of(MimeType::Image)[5] == "svg"@);
    assert(!extensions_of(MimeType::Audio).contains(ext));
    assert(extensions_of(MimeType::Audio)[0] == "mp3"@);
    assert(extensions_of(MimeType::Audio)[1] == "wav"@);
    assert(extensions_of(MimeType::Audio)[2] == "ogg"@);
    assert(extensions_of(MimeType::Audio)[3] == "m4a"@);
    assert(!extensions_of(MimeType::Video).contains(ext));
    assert(extensions_of(MimeType::Video)[0] == "mp4"@);
    assert(extensions_of(MimeType::Video)[1] == "webm"@);
    assert(extensions_of(MimeType::Video)[2] == "avi"@);
    assert(extensions_of(MimeType::Video)[3] == "mov"@);
    assert(!extensions_of(MimeType::Font).contains(ext));
    assert(extensions_of(MimeType::Font)[0] == "ttf"@);
    assert(extensions_of(MimeType::Font)[1] == "otf"@);
    assert(extensions_of(MimeType::Font)[2] == "woff"@);
    assert(extensions_of(MimeType::Font)[3] == "woff2"@);
    assert(!extensions_of(MimeType::Multipart).contains(ext));
    assert(extensions_of(MimeType::Multipart)[0] == "mime"@);
    assert(extensions_of(MimeType::Multipart)[1] == "mhtml"@);
    assert(!extensions_of(MimeType::Model).contains(ext));
    assert(extensions_of(MimeType::Model)[0] == "obj"@);
    assert(extensions_of(MimeType::Model)[1] == "stl"@);
    assert(extensions_of(MimeType::Model)[2] == "glb"@);
    assert(extensions_of(MimeType::Model)[3] == "gltf"@);
    assert(extensions_of(MimeType::Model)[4] == "3ds"@);
}

/// The icon that stands for a kind of content; unknown content shows as text.
pub open spec fn icon_of_mime(m: MimeType) -> GenericIcon {
    match m {
        MimeType::Text => GenericIcon::Text,
        MimeType::Application => GenericIcon::ApplicationDefault,
        MimeType::Image => GenericIcon::Image,
        MimeType::Audio => GenericIcon::Audio,
        MimeType::Video => GenericIcon::Video,
        MimeType::Font => GenericIcon::Font,
        MimeType::Multipart => GenericIcon::Multipart,
        MimeType::Model => GenericIcon::Model,
        MimeType::Unknown => GenericIcon::Text,
    }
}

/// Each kind of content has its own generic icon, and content of an unknown
/// kind shows as text.
pub proof fn lemma_icons_of_kinds()
    ensures
        icon_of_mime(MimeType::Text) == GenericIcon::Text,
        icon_of_mime(MimeType::Application) == GenericIcon::ApplicationDefault,
        icon_of_mime(MimeType::Image) == GenericIcon::Image,
        icon_of_mime(MimeType::Audio) == GenericIcon::Audio,
        icon_of_mime(MimeType::Video) == GenericIcon::Video,
        icon_of_mime(MimeType::Font) == GenericIcon::Font,
        icon_of_mime(MimeType::Multipart) == GenericIcon::Multipart,
        icon_of_mime(MimeType::Model) == GenericIcon::Model,
        icon_of_mime(MimeType::Unknown) == GenericIcon::Text,
{
}

/// The extension of a path: what follows its last `.`, read as UTF-8 with
/// replacement and lower-cased; empty when there is no `.`.
pub open spec fn extension_text(path: Seq<u8>) -> Seq<char> {
    match rsplit_once_seq(utf8_lossy_text(path), '.') {
        Some((_, ext)) => lowercase_text(ext),
        None => Seq::empty(),
    }
}

/// Whether `v` holds exactly the characters of `lit`.
fn is_word(v: &Vec<char>, lit: &str) -> (r: bool)
    ensures
        r == (v@ == lit@),
{
    assert(v@.subrange(0, v@.len() as int) =~= v@);
    range_eq_str(v, 0, v.len(), lit)
}

impl MimeType {
    /// The kind of content that the extension `ext` names.
    pub fn get_type_from_extension(ext: &str) -> (m: MimeType)
        ensures
            m == mime_of_extension(ext@),
    {
        let v = chars_of(ext);
        if is_word(&v, "txt") || is_word(&v, "md") || is_word(&v, "html") || is_word(&v, "css") || is_word(&v, "csv") {
            MimeType::Text
        } else if is_word(&v, "json") || is_word(&v, "pdf") || is_word(&v, "zip") || is_word(&v, "wasm") || is_word(&v, "xml") {
            MimeType::Application
        } else if is_word(&v, "jpg") || is_word(&v, "jpeg") || is_word(&v, "png") || is_word(&v, "gif") || is_word(&v, "webp") || is_word(&v, "svg") {
            MimeType::Image
        } else if is_word(&v, "mp3") || is_word(&v, "wav") || is_word(&v, "ogg") || is_word(&v, "m4a") {
            MimeType::Audio
        } else if is_word(&v, "mp4") || is_word(&v, "webm") || is_word(&v, "avi") || is_word(&v, "mov") {
            MimeType::Video
        } else if is_word(&v, "ttf") || is_word(&v, "otf") || is_word(&v, "woff") || is_word(&v, "woff2") {
            MimeType::Font
        } else if is_word(&v, "mime") || is_word(&v, "mhtml") {
            MimeType::Multipart
        } else if is_word(&v, "obj") || is_word(&v, "stl") || is_word(&v, "glb") || is_word(&v, "gltf") || is_word(&v, "3ds") {
            MimeType::Model
        } else {
            MimeType::Unknown
        }
    }

    /// The icon that stands for this kind of content.
    pub fn get_icon_from_type(&self) -> (i: GenericIcon)
        ensures
            i == icon_of_mime(*self),
    {
        match self {
            MimeType::Text => GenericIcon::Text,
            MimeType::Application => GenericIcon::ApplicationDefault,
            MimeType::Image => GenericIcon::Image,
            MimeType::Audio => GenericIcon::Audio,
            MimeType::Video => GenericIcon::Video,
            MimeType::Font => GenericIcon::Font,
            MimeType::Multipart => GenericIcon::Multipart,
            MimeType::Model => GenericIcon::Model,
            MimeType::Unknown => GenericIcon::Text,
        }
    }
}

/// The lower-cased extension of the path with the given bytes.
pub fn file_extension(path: &[u8]) -> (ext: String)
    ensures
        ext@ == extension_text(path@),
{
    let text = bytes_to_string_lossy(path);
    let v = chars_of(text.as_str());
    match find_last_char(&v, 0, v.len(), '.') {
        Some(i) => {
            assert(v@.subrange(0, v@.len() as int) =~= v@);
            let tail = string_of_range(&v, i + 1, v.len());
            str_to_lowercase(tail.as_str())
        },
        None => {
            assert(v@.subrange(0, v@.len() as int) =~= v@);
            String::new()
        },
    }
}

/// The icon of the file at the path with the given bytes; `is_dir` tells
/// whether that path is a directory.
pub fn get_icon_from_mimetype(path: &[u8], is_dir: bool) -> (i: GenericIcon)
    ensures
        is_dir ==> i == GenericIcon::Folder,
        !is_dir ==> i == icon_of_mime(mime_of_extension(extension_text(path@))),
{
    if is_dir {
        return GenericIcon::Folder;
    }
    let ext = file_extension(path);
    let mimetype = MimeType::get_type_from_extension(ext.as_str());
    mimetype.get_icon_from_type()
}

} // verus!
