//! The storage configuration: one connection URL whose scheme selects the
//! backend, kept in a small configuration file of one line,
//! `storage = "file:///home/user/.config/todo/todos"`.

use vstd::prelude::*;
use vstd::string::StringExecFns;

use crate::codec::{
    chars_of, lemma_parse_str_chars, lemma_subrange_concat, lit_at, p_str_chars, push_escaped,
    sp_lit_ok, sp_str_chars, spec_escape, string_of,
};
use crate::error::TodoError;

verus! {

/// Which backend the storage URL's scheme picks.
#[derive(Debug, PartialEq, Eq, Clone, Copy)]
pub enum StorageFormat {
    Postgres,
    Sqlite,
    LocalStorage,
}

/// What `url::Url::parse` followed by `Url::as_str` yields: the normalized
/// text of the URL when the input parses, nothing otherwise. The result
/// depends on the input text alone.
pub uninterp spec fn url_normal_of(s: Seq<char>) -> Option<Seq<char>>;

/// Relies on url::Url::parse and Url::as_str: validates the URL and hands
/// back its normalized text.
#[verifier::external_body]
fn parse_url(s: &str) -> (r: Option<String>)
    ensures
        r.deep_view() == url_normal_of(s@),
{
    match url::Url::parse(s) {
        Ok(u) => Some(u.as_str().to_owned()),
        Err(_) => None,
    }
}

/// The position of the first colon at or after `i`, if any.
pub open spec fn scheme_end(s: Seq<char>, i: int) -> Option<int>
    decreases s.len() - i,
    when 0 <= i <= s.len()
{
    if i >= s.len() {
        None
    } else if s[i] == ':' {
        Some(i)
    } else {
        scheme_end(s, i + 1)
    }
}

/// A URL's scheme: the text before its first colon. Text without a colon has
/// no scheme.
pub open spec fn scheme_of(url: Seq<char>) -> Option<Seq<char>> {
    match scheme_end(url, 0) {
        Some(k) => Some(url.take(k)),
        None => None,
    }
}

/// Which backend a URL picks: `postgresql`, `sqlite` and `file` each name
/// one; any other scheme, or text without one, is a configuration error
/// carrying the offending text.
pub open spec fn spec_storage_format(url: Seq<char>) -> Result<StorageFormat, Seq<char>> {
    match scheme_of(url) {
        Some(s) => {
            if s == "postgresql"@ {
                Ok(StorageFormat::Postgres)
            } else if s == "sqlite"@ {
                Ok(StorageFormat::Sqlite)
            } else if s == "file"@ {
                Ok(StorageFormat::LocalStorage)
            } else {
                Err(s)
            }
        },
        None => Err(url),
    }
}

/// The literal text before the URL in the configuration file.
pub open spec fn lit_storage() -> Seq<char> {
    seq!['s', 't', 'o', 'r', 'a', 'g', 'e', ' ', '=', ' ', '"']
}

/// The configuration file's whole text for a given URL.
pub open spec fn spec_emit_config(url: Seq<char>) -> Seq<char> {
    lit_storage() + spec_escape(url) + seq!['"', '\n']
}

pub open spec fn is_ws(c: char) -> bool {
    c == ' ' || c == '\n' || c == '\r' || c == '\t'
}

/// The URL a configuration file's text holds: the quoted string after
/// `storage = `, with nothing but whitespace behind it.
pub open spec fn sp_config(s: Seq<char>) -> Option<Seq<char>> {
    if sp_lit_ok(s, 0, lit_storage()) {
        match sp_str_chars(s, 11) {
            Some((v, j)) => {
                if forall|k: int| j <= k < s.len() ==> is_ws(#[trigger] s[k]) {
                    Some(v)
                } else {
                    None
                }
            },
            None => None,
        }
    } else {
        None
    }
}

fn find_colon(cs: &Vec<char>) -> (r: Option<usize>)
    ensures
        match r {
            Some(i) => scheme_end(cs@, 0) == Some(i as int) && i < cs@.len(),
            None => scheme_end(cs@, 0) is None,
        },
{
    let n = cs.len();
    let mut i: usize = 0;
    while i < n
        invariant
            n == cs@.len(),
            i <= n,
            scheme_end(cs@, 0) == scheme_end(cs@, i as int),
        decreases n - i,
    {
        if cs[i] == ':' {
            return Some(i);
        }
        i = i + 1;
    }
    None
}

/// The storage configuration: the single URL that selects and parameterizes
/// the backend.
#[derive(Debug)]
pub struct Config {
    storage: String,
}

impl View for Config {
    type V = Seq<char>;

    closed spec fn view(&self) -> Seq<char> {
        self.storage@
    }
}

impl Config {
    /// Validates the given text as a URL and keeps its normalized form;
    /// text that is no URL is a configuration error carrying that text.
    pub fn new(storage: &str) -> (r: Result<Config, TodoError>)
        ensures
            match r {
                Ok(c) => url_normal_of(storage@) == Some(c@),
                Err(e) => url_normal_of(storage@) is None && (e matches TodoError::ConfigurationError(t)
                    && t@ == storage@),
            },
    {
        match parse_url(storage) {
            Some(normal) => Ok(Config { storage: normal }),
            None => Err(TodoError::ConfigurationError(storage.to_owned())),
        }
    }

    /// Where the tool's configuration lives, under the given home directory.
    pub fn default_path(home: &str) -> (r: String)
        ensures
            r@ == home@ + "/.config/todo"@,
    {
        crate::paths::config_dir(home)
    }

    /// The default configuration: a `file` URL naming `default.todo.ron`
    /// under the default path, validated as `new` validates.
    pub fn default(home: &str) -> (r: Result<Config, TodoError>)
        ensures
            ({
                let built = "file://"@ + home@ + "/.config/todo/default.todo.ron"@;
                match r {
                    Ok(c) => url_normal_of(built) == Some(c@),
                    Err(e) => url_normal_of(built) is None && (e matches TodoError::ConfigurationError(t)
                        && t@ == built),
                }
            }),
    {
        let mut url = String::from_str("file://");
        let dir = crate::paths::config_dir(home);
        url.append(dir.as_str());
        url.append("/default.todo.ron");
        proof {
            reveal_strlit("file://");
            reveal_strlit("/.config/todo");
            reveal_strlit("/default.todo.ron");
            reveal_strlit("/.config/todo/default.todo.ron");
            assert(url@ =~= "file://"@ + home@ + "/.config/todo/default.todo.ron"@);
        }
        Config::new(url.as_str())
    }

    /// Wraps an already-validated URL text without touching it.
    pub fn new_with_url(storage: String) -> (r: Config)
        ensures
            r@ == storage@,
    {
        Config { storage }
    }

    /// The storage URL's text.
    pub fn storage(&self) -> (r: &String)
        ensures
            r@ == self@,
    {
        &self.storage
    }

    /// Which backend the URL's scheme picks.
    pub fn storage_format(&self) -> (r: Result<StorageFormat, TodoError>)
        ensures
            match (r, spec_storage_format(self@)) {
                (Ok(f), Ok(g)) => f == g,
                (Err(e), Err(s)) => e matches TodoError::ConfigurationError(t) && t@ == s,
                _ => false,
            },
    {
        let cs = chars_of(self.storage.as_str());
        let n = cs.len();
        let i: usize = match find_colon(&cs) {
            None => {
                return Err(TodoError::ConfigurationError(self.storage.clone()));
            },
            Some(i) => i,
        };
        let mut sch_chars: Vec<char> = Vec::new();
        let mut k: usize = 0;
        while k < i
            invariant
                i < n,
                n == cs@.len(),
                k <= i,
                sch_chars@ == cs@.take(k as int),
            decreases i - k,
        {
            sch_chars.push(cs[k]);
            proof {
                assert(sch_chars@ =~= cs@.take(k + 1 as int));
            }
            k = k + 1;
        }
        let sch = string_of(&sch_chars);
        proof {
            assert(scheme_of(self@) == Some(cs@.take(i as int)));
            assert(sch@ == cs@.take(i as int));
        }
        if sch == String::from_str("postgresql") {
            Ok(StorageFormat::Postgres)
        } else if sch == String::from_str("sqlite") {
            Ok(StorageFormat::Sqlite)
        } else if sch == String::from_str("file") {
            Ok(StorageFormat::LocalStorage)
        } else {
            Err(TodoError::ConfigurationError(sch))
        }
    }

    /// The configuration file's full text for this configuration: the
    /// caller writes exactly this to the file.
    pub fn to_file_text(&self) -> (r: String)
        ensures
            r@ == spec_emit_config(self@),
    {
        let mut out: Vec<char> = Vec::new();
        out.push('s');
        out.push('t');
        out.push('o');
        out.push('r');
        out.push('a');
        out.push('g');
        out.push('e');
        out.push(' ');
        out.push('=');
        out.push(' ');
        out.push('"');
        assert(out@ =~= lit_storage());
        let cs = chars_of(self.storage.as_str());
        push_escaped(&cs, &mut out);
        out.push('"');
        out.push('\n');
        proof {
            assert(out@ =~= spec_emit_config(self@));
        }
        string_of(&out)
    }

    /// Reads a configuration back from its file's text; text of any other
    /// shape is corrupt persisted content.
    pub fn from_file_text(text: &str) -> (r: Result<Config, TodoError>)
        ensures
            match r {
                Ok(c) => sp_config(text@) == Some(c@),
                Err(e) => sp_config(text@) is None && e is SerializationFailure,
            },
    {
        let cs = chars_of(text);
        let n = cs.len();
        let lit: [char; 11] = ['s', 't', 'o', 'r', 'a', 'g', 'e', ' ', '=', ' ', '"'];
        proof {
            assert(lit@ =~= lit_storage());
        }
        if !lit_at(&cs, 0, lit.as_slice()) {
            return Err(TodoError::SerializationFailure);
        }
        proof {
            assert(11 <= cs@.len());
        }
        match p_str_chars(&cs, 11) {
            Some((v, j)) => {
                let mut k: usize = j;
                while k < n
                    invariant
                        cs@ == text@,
                        n == cs@.len(),
                        j <= k <= n,
                        sp_str_chars(text@, 11) == Some((v@, j as int)),
                        forall|q: int| j <= q < k ==> is_ws(#[trigger] cs@[q]),
                    decreases n - k,
                {
                    let c = cs[k];
                    if !(c == ' ' || c == '\n' || c == '\r' || c == '\t') {
                        proof {
                            assert(!is_ws(text@[k as int]));
                        }
                        return Err(TodoError::SerializationFailure);
                    }
                    k = k + 1;
                }
                Ok(Config { storage: string_of(&v) })
            },
            None => Err(TodoError::SerializationFailure),
        }
    }
}

/// The round trip of the configuration file: the emitted text of any URL,
/// read back, yields that URL.
pub proof fn lemma_config_round_trip(url: Seq<char>)
    ensures
        sp_config(spec_emit_config(url)) == Some(url),
{
    let s = spec_emit_config(url);
    let e = spec_escape(url);
    assert(s =~= lit_storage() + ((e + seq!['"']) + seq!['\n']));
    assert(s.len() == 11 + e.len() + 2);
    assert(s.subrange(0, s.len() as int) =~= s);
    lemma_subrange_concat(s, 0, lit_storage(), (e + seq!['"']) + seq!['\n']);
    lemma_subrange_concat(s, 11, e + seq!['"'], seq!['\n']);
    assert(s.subrange(0, 11) == lit_storage());
    assert(sp_lit_ok(s, 0, lit_storage()));
    lemma_parse_str_chars(s, 11, url);
    let j: int = 11 + e.len() as int + 1;
    assert(s[j] == '\n') by {
        assert(s.subrange(j, j + 1)[0] == s[j]);
    }
    assert(forall|k: int| j <= k < s.len() ==> is_ws(#[trigger] s[k]));
}

} // verus!
