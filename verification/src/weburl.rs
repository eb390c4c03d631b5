//! URLs, as they come from file choosers and from drag and drop.
use vstd::prelude::*;

verus! {

/// What the library reads of a URL.
pub struct UrlParts {
    pub scheme: String,
    /// The local path that the URL stands for, if it stands for one.
    pub file_path: Option<String>,
    /// The URL written out.
    pub text: String,
}

/// The model of the parts of a URL.
pub struct UrlView {
    pub scheme: Seq<char>,
    pub file_path: Option<Seq<char>>,
    pub text: Seq<char>,
}

impl View for UrlParts {
    type V = UrlView;

    open spec fn view(&self) -> UrlView {
        UrlView {
            scheme: self.scheme@,
            file_path: crate::text::opt_text(self.file_path),
            text: self.text@,
        }
    }
}

/// The name of what a text reads as, taken as a URL.
pub uninterp spec fn url_of(text: Seq<char>) -> Option<UrlView>;

/// Trusted: `url::Url::parse`, with `Url::scheme` and `Url::to_file_path` of
/// the result, the latter as on a Unix system. Bytes of the path that are no
/// UTF-8 are replaced.
#[verifier::external_body]
pub(crate) fn parse_url(text: &str) -> (r: Option<UrlParts>)
    ensures
        match r {
            Some(p) => url_of(text@) == Some(p@),
            None => url_of(text@) is None,
        },
{
    let url = url::Url::parse(text).ok()?;
    let file_path = url.to_file_path().ok().map(|p| p.to_string_lossy().into_owned());
    Some(UrlParts { scheme: url.scheme().to_owned(), file_path, text: url.to_string() })
}

} // verus!
