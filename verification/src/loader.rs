//! The decisions around loading a configuration: which file holds the
//! language document, whether the structure is sound (a root document must
//! name at least one language and must never link to another root), which
//! workflows a document defines, and which workflow a page path names.
//!
//! Reading files and deserializing documents stay with the caller; these
//! functions take the parsed values and decide.

use vstd::prelude::*;
use crate::errors::ParserError;
use crate::parser::{Config, Workflow, has_key, lookup, lookup_from, alist_get};
use crate::strutil::{str_eq, str_to_chars};

verus! {

/// The props a workflow page is built from: the workflow itself and the
/// language's message for an unfilled mandatory input.
pub struct WorkflowProps {
    /// The workflow to run.
    pub workflow: Workflow,
    /// The message shown beside an unfilled mandatory input.
    pub input_err_msg: String,
}

/// A configuration is sound when a root document names at least one
/// language, and every workflow of a language document is structurally
/// valid.
pub open spec fn config_ok(cfg: Config) -> bool {
    match cfg {
        Config::Root { languages } => languages@.len() >= 1,
        Config::Language { workflows, .. } => forall|i: int|
            0 <= i < workflows@.len() ==> (#[trigger] workflows@[i].1).wf_ok(),
    }
}

/// Decides soundness of a parsed configuration: a root document with no
/// languages is refused with the file named, and a language document with
/// an invalid workflow is refused with the first failing workflow named.
pub fn validate_config(cfg: &Config, filename: &str) -> (r: Result<(), ParserError>)
    ensures
        r is Ok <==> config_ok(*cfg),
        match r {
            Result::Ok(_) => true,
            Result::Err(ParserError::NoLanguages { filename: f }) => f@ == filename@ && (*cfg
                matches Config::Root { languages } && languages@.len() == 0),
            Result::Err(ParserError::InvalidWorkflow { workflow }) => (*cfg
                matches Config::Language { workflows, .. } && exists|i: int|
                0 <= i < workflows@.len() && !(#[trigger] workflows@[i].1).wf_ok() && workflow@
                    == workflows@[i].0@ && (forall|k: int|
                    0 <= k < i ==> (#[trigger] workflows@[k].1).wf_ok())),
            Result::Err(_) => false,
        },
{
    match cfg {
        Config::Root { languages } => {
            if languages.len() == 0 {
                Err(ParserError::NoLanguages { filename: filename.to_owned() })
            } else {
                Ok(())
            }
        },
        Config::Language { workflows, .. } => {
            let n = workflows.len();
            let mut i: usize = 0;
            while i < n
                invariant
                    n == workflows@.len(),
                    i <= n,
                    *cfg matches Config::Language { workflows: w0, .. } && w0@ == workflows@,
                    forall|k: int| 0 <= k < i ==> (#[trigger] workflows@[k].1).wf_ok(),
                decreases n - i,
            {
                if !workflows[i].1.validate() {
                    proof {
                        assert(!(#[trigger] workflows@[i as int].1).wf_ok());
                    }
                    let name = workflows[i].0.clone();
                    proof {
                        let ii: int = i as int;
                        assert(0 <= ii && ii < workflows@.len() && !workflows@[ii].1.wf_ok()
                            && name@ == workflows@[ii].0@ && (forall|k: int|
                            0 <= k < ii ==> (#[trigger] workflows@[k].1).wf_ok()));
                    }
                    return Err(ParserError::InvalidWorkflow { workflow: name });
                }
                i += 1;
            }
            Ok(())
        },
    }
}

/// For every sound language document, each workflow's declared starting
/// section is a key of its section table.
pub proof fn lemma_sound_config_index_resolves(cfg: Config)
    requires
        config_ok(cfg),
    ensures
        match cfg {
            Config::Language { workflows, .. } => forall|i: int|
                0 <= i < workflows@.len() ==> has_key(
                    (#[trigger] workflows@[i].1).sections@,
                    workflows@[i].1.index@,
                ),
            Config::Root { .. } => true,
        },
{
}

/// The file that holds the language document: the first language of a root
/// document, nothing for a language document, and a refusal for a root
/// document that names no language at all.
pub fn first_language_path(cfg: &Config, filename: &str) -> (r: Result<Option<String>, ParserError>)
    ensures
        match *cfg {
            Config::Root { languages } => if languages@.len() == 0 {
                r matches Err(ParserError::NoLanguages { filename: f }) && f@ == filename@
            } else {
                r matches Ok(Some(p)) && p@ == languages@[0].1@
            },
            Config::Language { .. } => r matches Ok(None),
        },
{
    match cfg {
        Config::Root { languages } => {
            if languages.len() == 0 {
                Err(ParserError::NoLanguages { filename: filename.to_owned() })
            } else {
                Ok(Some(languages[0].1.clone()))
            }
        },
        Config::Language { .. } => Ok(None),
    }
}

/// The names of the workflows a language document defines, in order; a
/// root document here means a root linked to another root, which is
/// refused with both files named.
pub fn workflow_names(cfg: &Config, root_filename: &str, linked: &str) -> (r: Result<
    Vec<String>,
    ParserError,
>)
    ensures
        match *cfg {
            Config::Language { workflows, .. } => r matches Ok(names) && names@.len()
                == workflows@.len() && forall|i: int|
                0 <= i < workflows@.len() ==> (#[trigger] names@[i])@ == workflows@[i].0@,
            Config::Root { .. } => r matches Err(ParserError::RootLinksToRoot {
                filename: f,
                linked: l,
            }) && f@ == root_filename@ && l@ == linked@,
        },
{
    match cfg {
        Config::Language { workflows, .. } => {
            let n = workflows.len();
            let mut names: Vec<String> = Vec::new();
            let mut i: usize = 0;
            while i < n
                invariant
                    n == workflows@.len(),
                    i <= n,
                    names@.len() == i,
                    forall|k: int| 0 <= k < i ==> (#[trigger] names@[k])@ == workflows@[k].0@,
                decreases n - i,
            {
                names.push(workflows[i].0.clone());
                i += 1;
            }
            Ok(names)
        },
        Config::Root { .. } => Err(ParserError::RootLinksToRoot {
            filename: root_filename.to_owned(),
            linked: linked.to_owned(),
        }),
    }
}

/// The file that holds the requested locale's language document; a missing
/// locale is refused, as is asking a language document for one.
pub fn language_path_for(cfg: &Config, locale: &str) -> (r: Result<String, ParserError>)
    ensures
        match *cfg {
            Config::Root { languages } => match lookup(languages@, locale@) {
                Some(p) => r matches Ok(q) && q@ == p@,
                None => r matches Err(ParserError::UnknownLocale { locale: l }) && l@ == locale@,
            },
            Config::Language { .. } => r matches Err(ParserError::UnknownLocale { locale: l }) && l@
                == locale@,
        },
{
    match cfg {
        Config::Root { languages } => {
            match alist_get(languages, locale) {
                Some(p) => Ok(p.clone()),
                None => Err(ParserError::UnknownLocale { locale: locale.to_owned() }),
            }
        },
        Config::Language { .. } => Err(ParserError::UnknownLocale { locale: locale.to_owned() }),
    }
}

/// The props of the named workflow of a language document; an unknown name
/// is refused, and a root document here is a root linked to another root.
pub fn workflow_props(cfg: Config, name: &str, root_filename: &str, linked: &str) -> (r: Result<
    WorkflowProps,
    ParserError,
>)
    ensures
        match cfg {
            Config::Language { workflows, input_err_msg } => match lookup(workflows@, name@) {
                Some(w) => r matches Ok(props) && props.workflow == w && props.input_err_msg
                    == input_err_msg,
                None => r matches Err(ParserError::UnknownWorkflow { workflow: wn }) && wn@ == name@,
            },
            Config::Root { .. } => r matches Err(ParserError::RootLinksToRoot {
                filename: f,
                linked: l,
            }) && f@ == root_filename@ && l@ == linked@,
        },
{
    match cfg {
        Config::Language { workflows, input_err_msg } => {
            let ghost wspec = workflows@;
            let mut ws = workflows;
            let n = ws.len();
            let mut i: usize = 0;
            while i < n
                invariant
                    ws@ == wspec,
                    n == wspec.len(),
                    i <= n,
                    cfg matches Config::Language { workflows: w0, input_err_msg: m0 } && w0@
                        == wspec && m0 == input_err_msg,
                    lookup(wspec, name@) == lookup_from(wspec, name@, i as int),
                decreases n - i,
            {
                if str_eq(ws[i].0.as_str(), name) {
                    proof {
                        assert(lookup_from(wspec, name@, i as int) == Some(wspec[i as int].1));
                    }
                    let pair = ws.swap_remove(i);
                    proof {
                        assert(pair == wspec[i as int]);
                    }
                    return Ok(WorkflowProps { workflow: pair.1, input_err_msg });
                }
                i += 1;
            }
            Err(ParserError::UnknownWorkflow { workflow: name.to_owned() })
        },
        Config::Root { .. } => Err(ParserError::RootLinksToRoot {
            filename: root_filename.to_owned(),
            linked: linked.to_owned(),
        }),
    }
}

/// The position of the first slash at or after `i`, or a negative number
/// when there is none.
pub open spec fn find_slash(s: Seq<char>, i: int) -> int
    decreases s.len() - i,
{
    if i < 0 || i >= s.len() {
        -1
    } else if s[i] == '/' {
        i
    } else {
        find_slash(s, i + 1)
    }
}

/// Splits a page path into the locale before its first slash and the
/// workflow name after it; a path with no slash is all locale, with an
/// empty workflow name.
pub fn split_locale_path(path: &str) -> (r: (String, String))
    ensures
        ({
            let j = find_slash(path@, 0);
            if 0 <= j < path@.len() {
                r.0@ == path@.subrange(0, j) && r.1@ == path@.subrange(j + 1, path@.len() as int)
            } else {
                r.0@ == path@ && r.1@ == Seq::<char>::empty()
            }
        }),
{
    let ghost s = path@;
    let cs = str_to_chars(path);
    let n = cs.len();
    let mut j: usize = 0;
    while j < n && cs[j] != '/'
        invariant
            s == path@,
            cs@ == s,
            n == s.len(),
            j <= n,
            find_slash(s, 0) == find_slash(s, j as int),
        decreases n - j,
    {
        j += 1;
    }
    if j < n {
        proof {
            assert(find_slash(s, 0) == j);
        }
        let locale = path.substring_char(0, j);
        let name = path.substring_char(j + 1, n);
        (locale.to_owned(), name.to_owned())
    } else {
        proof {
            assert(find_slash(s, 0) == -1);
        }
        (path.to_owned(), String::new())
    }
}

/// Strips the fixed page-path prefix off a built page's path, giving the
/// part that names the locale and workflow; a path without the prefix
/// yields nothing.
pub fn strip_page_prefix(path: &str) -> (r: Option<String>)
    ensures
        match r {
            Some(rest) => path@.len() >= 9 && path@.subrange(0, 9) == "workflow/"@ && rest@
                == path@.subrange(9, path@.len() as int),
            None => !(path@.len() >= 9 && path@.subrange(0, 9) == "workflow/"@),
        },
{
    proof {
        reveal_strlit("workflow/");
    }
    let n = path.unicode_len();
    if n >= 9 {
        let p = path.substring_char(0, 9);
        if str_eq(p, "workflow/") {
            let rest = path.substring_char(9, n);
            return Some(rest.to_owned());
        }
    }
    None
}

} // verus!
