//! Captions as a browser is offered and served them.
use crate::caption::cue::BrowserCaptionError;
use crate::caption::{caption_to_webvtt, converted, CaptionWebVttConversion};
use crate::catalog::CaptionFile;
use crate::encoding::string_of;
use crate::http::{bytes_response, entity_fields, HttpResponse};
use crate::number::{decimal_chars, decimal_text, signed_chars, signed_text};
use crate::problem::{optional_text, Problem};
use crate::query::same_text;
use crate::text::{append_chars, chars_of};
use crate::track::opt;
use vstd::prelude::*;
use vstd::utf8::encode_utf8;

verus! {

/// The Unicode upper case of a text.
pub uninterp spec fn uppercase(text: Seq<char>) -> Seq<char>;

/// `str::to_uppercase` gives the Unicode upper case of a text.
#[verifier::external_body]
pub(crate) fn to_uppercase(text: &str) -> (result: String)
    ensures
        result@ == uppercase(text@),
{
    text.to_uppercase()
}

/// A caption track that a browser is offered.
pub struct WebCaption {
    pub index: u32,
    pub label: String,
    pub language: Option<String>,
    pub default: bool,
    pub source_format: String,
    pub browser_supported: bool,
    pub url: Option<String>,
}

/// The path of a caption track.
pub open spec fn caption_path(detail_id: int, index: nat) -> Seq<char> {
    "/Captions/"@ + signed_text(detail_id) + seq!['/'] + decimal_text(index)
        + ".vtt?format=webvtt"@
}

/// The path of a caption track, where it can become WebVTT.
pub fn browser_caption_url(
    detail_id: i64,
    index: u32,
    conversion: Option<CaptionWebVttConversion>,
) -> (result: Option<String>)
    ensures
        match result {
            Some(url) => conversion is Some && url@ == caption_path(
                detail_id as int,
                index as nat,
            ),
            None => conversion is None,
        },
{
    match conversion {
        Some(_) => {
            let mut url = chars_of("/Captions/");
            append_chars(&mut url, &signed_chars(detail_id));
            url.push('/');
            append_chars(&mut url, &decimal_chars(index as u64));
            append_chars(&mut url, &chars_of(".vtt?format=webvtt"));
            assert(url@ =~= caption_path(detail_id as int, index as nat));
            Some(string_of(&url))
        },
        None => None,
    }
}

/// The English name of a language that has one here.
pub open spec fn language_name(language: Seq<char>) -> Option<Seq<char>> {
    if language == "en"@ || language == "eng"@ {
        Some("English"@)
    } else if language == "es"@ || language == "spa"@ {
        Some("Spanish"@)
    } else if language == "fr"@ || language == "fra"@ || language == "fre"@ {
        Some("French"@)
    } else if language == "de"@ || language == "deu"@ || language == "ger"@ {
        Some("German"@)
    } else if language == "it"@ || language == "ita"@ {
        Some("Italian"@)
    } else if language == "ja"@ || language == "jpn"@ {
        Some("Japanese"@)
    } else if language == "ko"@ || language == "kor"@ {
        Some("Korean"@)
    } else if language == "zh"@ || language == "zho"@ || language == "chi"@ {
        Some("Chinese"@)
    } else {
        None
    }
}

fn friendly_language(language: &str) -> (result: Option<&'static str>)
    ensures
        optional_text(result) == language_name(language@),
{
    if same_text(language, "en") || same_text(language, "eng") {
        Some("English")
    } else if same_text(language, "es") || same_text(language, "spa") {
        Some("Spanish")
    } else if same_text(language, "fr") || same_text(language, "fra") || same_text(
        language,
        "fre",
    ) {
        Some("French")
    } else if same_text(language, "de") || same_text(language, "deu") || same_text(
        language,
        "ger",
    ) {
        Some("German")
    } else if same_text(language, "it") || same_text(language, "ita") {
        Some("Italian")
    } else if same_text(language, "ja") || same_text(language, "jpn") {
        Some("Japanese")
    } else if same_text(language, "ko") || same_text(language, "kor") {
        Some("Korean")
    } else if same_text(language, "zh") || same_text(language, "zho") || same_text(
        language,
        "chi",
    ) {
        Some("Chinese")
    } else {
        None
    }
}

/// The label of a caption track: its language, or its place counted from one.
pub open spec fn label_of(index: u32, language: Option<Seq<char>>) -> Seq<char> {
    match language {
        Some(language) => match language_name(language) {
            Some(name) => name,
            None => uppercase(language),
        },
        None => "Caption "@ + decimal_text((index + 1) as nat),
    }
}

/// The label of a caption track: its language, or its place counted from one.
pub fn caption_label(index: u32, language: Option<&str>) -> (label: String)
    requires
        language is None ==> index < u32::MAX,
    ensures
        label@ == label_of(index, optional_text(language)),
{
    match language {
        Some(language) => match friendly_language(language) {
            Some(name) => name.to_owned(),
            None => to_uppercase(language),
        },
        None => {
            let mut label = chars_of("Caption ");
            append_chars(&mut label, &decimal_chars(index as u64 + 1));
            string_of(&label)
        },
    }
}

/// Whether a caption track shows a file. No track is on unless it is chosen.
pub open spec fn offers(caption: WebCaption, file: CaptionFile, detail_id: i64) -> bool {
    &&& caption.index == file.index
    &&& caption.label@ == label_of(file.index, opt(file.language))
    &&& opt(caption.language) == opt(file.language)
    &&& !caption.default
    &&& caption.source_format@ == file.ext@
    &&& caption.browser_supported == (file.conversion is Some)
    &&& opt(caption.url) == if file.conversion is Some {
        Some(caption_path(detail_id as int, file.index as nat))
    } else {
        None
    }
}

/// Whether a caption file has a label: a language, or a place to count from one.
pub open spec fn has_label(file: CaptionFile) -> bool {
    file.language is None ==> file.index < u32::MAX
}

/// The caption tracks of a title.
pub fn caption_dtos(captions: &[CaptionFile], detail_id: i64) -> (result: Vec<WebCaption>)
    requires
        forall|i: int| 0 <= i < captions@.len() ==> has_label(#[trigger] captions@[i]),
    ensures
        result@.len() == captions@.len(),
        forall|i: int|
            0 <= i < captions@.len() ==> offers(#[trigger] result@[i], captions@[i], detail_id),
{
    let mut result: Vec<WebCaption> = Vec::new();
    let mut i: usize = 0;
    while i < captions.len()
        invariant
            i <= captions.len(),
            forall|j: int| 0 <= j < captions@.len() ==> has_label(#[trigger] captions@[j]),
            result@.len() == i,
            forall|j: int|
                0 <= j < i ==> offers(#[trigger] result@[j], captions@[j], detail_id),
        decreases captions.len() - i,
    {
        let file = &captions[i];
        assert(has_label(captions@[i as int]));
        let language = match &file.language {
            Some(language) => Some(language.as_str()),
            None => None,
        };
        let label = caption_label(file.index, language);
        let url = browser_caption_url(detail_id, file.index, file.conversion);
        result.push(
            WebCaption {
                index: file.index,
                label,
                language: match &file.language {
                    Some(language) => Some(language.clone()),
                    None => None,
                },
                default: false,
                source_format: file.ext.clone(),
                browser_supported: url.is_some(),
                url,
            },
        );
        i += 1;
    }
    result
}

/// Why a caption file is not served, if it is not.
pub open spec fn caption_problem(conversion: Option<CaptionWebVttConversion>, body: Seq<u8>) -> Option<
    Problem,
> {
    match conversion {
        None => Some(Problem::CaptionUnsupported),
        Some(conversion) => match converted(conversion, body) {
            Ok(_) => None,
            Err(BrowserCaptionError::Encoding) => Some(Problem::CaptionEncoding),
            Err(BrowserCaptionError::Malformed) => Some(Problem::CaptionMalformed),
        },
    }
}

/// The answer with a caption file as WebVTT.
pub fn browser_caption_response(
    conversion: Option<CaptionWebVttConversion>,
    body: &[u8],
) -> (result: Result<HttpResponse, Problem>)
    ensures
        match result {
            Ok(response) => {
                &&& conversion matches Some(kind)
                &&& converted(kind, body@) matches Ok(text)
                &&& response.status == 200
                &&& response.reason@ == "OK"@
                &&& response.body@ == encode_utf8(text)
                &&& response.fields() == entity_fields(
                    "text/vtt; charset=utf-8"@,
                    "no-store"@,
                    encode_utf8(text).len(),
                )
            },
            Err(problem) => caption_problem(conversion, body@) == Some(problem),
        },
{
    let kind = match conversion {
        Some(kind) => kind,
        None => {
            return Err(Problem::CaptionUnsupported);
        },
    };
    match caption_to_webvtt(kind, body) {
        Ok(vtt) => Ok(bytes_response("text/vtt; charset=utf-8", &vtt, "no-store")),
        Err(BrowserCaptionError::Encoding) => Err(Problem::CaptionEncoding),
        Err(BrowserCaptionError::Malformed) => Err(Problem::CaptionMalformed),
    }
}

// -------------------------------------------------------------------- laws

/// Every caption track that is offered with a path is one that can become
/// WebVTT, and every one that can is offered with a path.
pub proof fn law_offered_captions_are_supported(
    caption: WebCaption,
    file: CaptionFile,
    detail_id: i64,
)
    requires
        offers(caption, file, detail_id),
    ensures
        caption.browser_supported <==> caption.url is Some,
        caption.url is Some <==> file.conversion is Some,
{
}

} // verus!
