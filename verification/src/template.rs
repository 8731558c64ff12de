//! Strict rendering of command templates. A template is plain text with
//! `{{name}}` placeholders; rendering replaces each placeholder by the
//! caller-supplied parameter of that name. Rendering is strict: a
//! placeholder without a parameter, or a `{{` without its `}}`, is an
//! error, never silently dropped.

use vstd::prelude::*;

use crate::text::{push_char, range_matches_str, str_to_chars};

verus! {

/// Why a template did not render.
#[derive(Clone, Copy, PartialEq, Eq, Structural, Debug)]
pub enum TemplateError {
    /// A `{{` is never closed by `}}`.
    UnclosedTag,
    /// A placeholder names a parameter that was not supplied.
    UnknownParameter,
}

/// The parameters as a sequence of (name, value) pairs of characters.
pub open spec fn params_view(params: Seq<(String, String)>) -> Seq<(Seq<char>, Seq<char>)> {
    params.map_values(|p: (String, String)| (p.0@, p.1@))
}

/// The value of the first parameter with this name.
pub open spec fn lookup_param(params: Seq<(Seq<char>, Seq<char>)>, key: Seq<char>) -> Option<
    Seq<char>,
>
    decreases params.len(),
{
    if params.len() == 0 {
        None
    } else if params[0].0 == key {
        Some(params[0].1)
    } else {
        lookup_param(params.drop_first(), key)
    }
}

/// The first position at or after `i` where `}}` stands.
pub open spec fn find_close(t: Seq<char>, i: int) -> Option<int>
    decreases t.len() - i,
{
    if i + 1 >= t.len() {
        None
    } else if t[i] == '}' && t[i + 1] == '}' {
        Some(i)
    } else {
        find_close(t, i + 1)
    }
}

/// A found closing position lies in range: at or after `i`, with room for
/// both braces.
pub proof fn lemma_find_close_bounds(t: Seq<char>, i: int)
    ensures
        find_close(t, i) matches Some(j) ==> i <= j && j + 1 < t.len(),
    decreases t.len() - i,
{
    if i + 1 >= t.len() {
    } else if t[i] == '}' && t[i + 1] == '}' {
    } else {
        lemma_find_close_bounds(t, i + 1);
    }
}

/// What rendering the template from position `i` on yields.
pub open spec fn render_from(
    t: Seq<char>,
    params: Seq<(Seq<char>, Seq<char>)>,
    i: int,
) -> Result<Seq<char>, TemplateError>
    decreases t.len() - i via render_from_decreases
{
    if i >= t.len() {
        Ok(Seq::<char>::empty())
    } else if i + 1 < t.len() && t[i] == '{' && t[i + 1] == '{' {
        match find_close(t, i + 2) {
            None => Err(TemplateError::UnclosedTag),
            Some(j) => match lookup_param(params, t.subrange(i + 2, j)) {
                None => Err(TemplateError::UnknownParameter),
                Some(v) => match render_from(t, params, j + 2) {
                    Ok(rest) => Ok(v + rest),
                    Err(e) => Err(e),
                },
            },
        }
    } else {
        match render_from(t, params, i + 1) {
            Ok(rest) => Ok(seq![t[i]] + rest),
            Err(e) => Err(e),
        }
    }
}

#[via_fn]
proof fn render_from_decreases(t: Seq<char>, params: Seq<(Seq<char>, Seq<char>)>, i: int) {
    lemma_find_close_bounds(t, i + 2);
}

/// What rendering the whole template yields.
pub open spec fn render_template(t: Seq<char>, params: Seq<(Seq<char>, Seq<char>)>) -> Result<
    Seq<char>,
    TemplateError,
> {
    render_from(t, params, 0)
}

/// The value of the first parameter named by `chars[start .. end]`.
#[verifier::loop_isolation(false)]
fn lookup_value<'a>(
    params: &'a Vec<(String, String)>,
    chars: &Vec<char>,
    start: usize,
    end: usize,
) -> (result: Option<&'a String>)
    requires
        start <= end <= chars@.len(),
    ensures
        match result {
            Some(v) => lookup_param(params_view(params@), chars@.subrange(start as int, end as int))
                == Some(v@),
            None => lookup_param(params_view(params@), chars@.subrange(start as int, end as int))
                is None,
        },
{
    let key = Ghost(chars@.subrange(start as int, end as int));
    let n = params.len();
    proof {
        assert(params_view(params@).skip(0) =~= params_view(params@));
    }
    let mut k: usize = 0;
    while k < n
        invariant
            0 <= k <= n,
            lookup_param(params_view(params@), key@) == lookup_param(
                params_view(params@).skip(k as int),
                key@,
            ),
            forall|j: int| 0 <= j < k ==> #[trigger] params@[j].0@ != key@,
        decreases n - k,
    {
        if range_matches_str(chars, start, end, &params[k].0) {
            proof {
                assert(params_view(params@).skip(k as int)[0] == (params@[k as int].0@, params@[
                    k as int
                ].1@));
            }
            return Some(&params[k].1);
        }
        proof {
            let rest = params_view(params@).skip(k as int);
            assert(rest[0] == (params@[k as int].0@, params@[k as int].1@));
            assert(rest.drop_first() =~= params_view(params@).skip(k as int + 1));
        }
        k += 1;
    }
    proof {
        assert(params_view(params@).skip(n as int) =~= Seq::<(Seq<char>, Seq<char>)>::empty());
    }
    None
}

/// Render the template with the given parameters, strictly: the result is
/// the template text with every `{{name}}` replaced by the parameter
/// `name`, an unknown placeholder or an unclosed tag is the matching error,
/// and nothing else is accepted or produced.
#[verifier::loop_isolation(false)]
pub fn verify_template_parameters(
    template: String,
    parameters: &Vec<(String, String)>,
) -> (result: Result<String, TemplateError>)
    ensures
        match result {
            Ok(s) => render_template(template@, params_view(parameters@)) == Ok::<
                Seq<char>,
                TemplateError,
            >(s@),
            Err(e) => render_template(template@, params_view(parameters@)) == Err::<
                Seq<char>,
                TemplateError,
            >(e),
        },
{
    let chars = str_to_chars(template.as_str());
    let ghost t = template@;
    let ghost ps = params_view(parameters@);
    let n = chars.len();
    let mut out = String::new();
    let mut i: usize = 0;
    while i < n
        invariant
            0 <= i <= n,
            n == t.len(),
            chars@ == t,
            render_from(t, ps, 0) == match render_from(t, ps, i as int) {
                Ok(rest) => Ok::<Seq<char>, TemplateError>(out@ + rest),
                Err(e) => Err::<Seq<char>, TemplateError>(e),
            },
        decreases n - i,
    {
        if i + 1 < n && chars[i] == '{' && chars[i + 1] == '{' {
            // a placeholder: find its end, look its name up
            let mut j: usize = i + 2;
            while j < n - 1 && !(chars[j] == '}' && chars[j + 1] == '}')
                invariant
                    i + 2 <= j <= n,
                    find_close(t, i + 2) == find_close(t, j as int),
                decreases n - j,
            {
                j += 1;
            }
            if j >= n - 1 {
                proof {
                    assert(find_close(t, j as int) is None);
                }
                return Err(TemplateError::UnclosedTag);
            }
            proof {
                assert(find_close(t, i + 2) == Some(j as int));
            }
            match lookup_value(parameters, &chars, i + 2, j) {
                None => {
                    return Err(TemplateError::UnknownParameter);
                },
                Some(v) => {
                    let ghost out_pre = out@;
                    let ghost vv = v@;
                    out.append(v.as_str());
                    proof {
                        match render_from(t, ps, j + 2) {
                            Ok(rest) => {
                                assert(out_pre + (vv + rest) =~= out@ + rest);
                            },
                            Err(_) => {},
                        }
                    }
                    i = j + 2;
                },
            }
        } else {
            let c = chars[i];
            let ghost out_pre = out@;
            push_char(&mut out, c);
            proof {
                match render_from(t, ps, i + 1 as int) {
                    Ok(rest) => {
                        assert(out_pre + (seq![t[i as int]] + rest) =~= out@ + rest);
                    },
                    Err(_) => {},
                }
            }
            i = i + 1;
        }
    }
    proof {
        assert(render_from(t, ps, n as int) == Ok::<Seq<char>, TemplateError>(
            Seq::<char>::empty(),
        ));
        assert(out@ + Seq::<char>::empty() =~= out@);
    }
    Ok(out)
}

} // verus!
