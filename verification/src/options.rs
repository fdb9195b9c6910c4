//! Turning listing-command output into selectable options: positional
//! argument templating, per-line regex extraction with fail-fast group
//! counting, and order-preserving dedup by display name.

use vstd::prelude::*;
use vstd::string::StringExecFns;
use crate::config::{Function, SelectionInput, opt_str_view};
use crate::consts::{ConstMap, entry_keys, entry_values, lemma_wf_keys_distinct, update_or_push};
use crate::errors::Error;
use crate::rex::{CompiledRegex, regex_group_count, regex_group_values, regex_match_texts, regex_valid};
use crate::text::{concat_all, concat_strings, dec_digits, replace_seq, replace_all, split_char,
    split_seq, str_eq, usize_to_string};

verus! {

/// The positional placeholder that stands for argument `i`.
pub open spec fn arg_token(i: nat) -> Seq<char> {
    "{{arg."@ + dec_digits(i) + "}}"@
}

/// `cmd` with each argument substituted for its positional placeholder,
/// argument `k` standing at index `base + k`.
pub open spec fn subst_args_from(cmd: Seq<char>, args: Seq<Seq<char>>, base: nat) -> Seq<char>
    decreases args.len(),
{
    if args.len() == 0 {
        cmd
    } else {
        subst_args_from(replace_seq(cmd, arg_token(base), args[0]), args.skip(1), base + 1)
    }
}

/// The capture values of a possibly-absent regex on a line: the default
/// matches the whole line as its one value; a pattern without explicit
/// groups yields its whole-match texts; one with groups yields the texts
/// of the groups that took part.
pub open spec fn capture_parts(re: Option<Seq<char>>, line: Seq<char>) -> Seq<Seq<char>> {
    match re {
        None => seq![line],
        Some(p) => if regex_group_count(p) == 1 {
            regex_match_texts(p, line)
        } else {
            regex_group_values(p, line)
        },
    }
}

/// The display name of a line: its name captures concatenated.
pub open spec fn line_name(re: Option<Seq<char>>, line: Seq<char>) -> Seq<char> {
    concat_all(capture_parts(re, line))
}

/// The (name, argument) pairs of the non-empty lines, in line order. A
/// line whose argument captures are not exactly one fails the whole
/// parse; the first such line and its capture count are reported.
pub open spec fn parse_lines(
    op: Option<Seq<char>>,
    ar: Option<Seq<char>>,
    lines: Seq<Seq<char>>,
) -> Result<Seq<(Seq<char>, Seq<char>)>, (Seq<char>, nat)>
    decreases lines.len(),
{
    if lines.len() == 0 {
        Ok(Seq::empty())
    } else {
        match parse_lines(op, ar, lines.drop_last()) {
            Err(e) => Err(e),
            Ok(acc) => {
                let line = lines.last();
                if line.len() == 0 {
                    Ok(acc)
                } else {
                    let args = capture_parts(ar, line);
                    if args.len() == 1 {
                        Ok(acc.push((line_name(op, line), args[0])))
                    } else {
                        Err((line, args.len()))
                    }
                }
            },
        }
    }
}

/// Pairs deduplicated by name: the first occurrence keeps its place, the
/// last occurrence keeps its value.
pub open spec fn dedup_pairs(pairs: Seq<(Seq<char>, Seq<char>)>) -> Seq<(Seq<char>, Seq<char>)>
    decreases pairs.len(),
{
    if pairs.len() == 0 {
        Seq::empty()
    } else {
        update_or_push(dedup_pairs(pairs.drop_last()), pairs.last().0, pairs.last().1)
    }
}

/// The full parse of listing output: lines split on newline, parsed, then
/// deduplicated by display name.
pub open spec fn selection_pairs(
    op: Option<Seq<char>>,
    ar: Option<Seq<char>>,
    text: Seq<char>,
) -> Result<Seq<(Seq<char>, Seq<char>)>, (Seq<char>, nat)> {
    match parse_lines(op, ar, split_seq(text, '\n')) {
        Ok(ps) => Ok(dedup_pairs(ps)),
        Err(e) => Err(e),
    }
}

/// A parse that has already failed on a prefix of the lines fails the
/// whole batch with the same report.
proof fn lemma_parse_error_persists(
    op: Option<Seq<char>>,
    ar: Option<Seq<char>>,
    lines: Seq<Seq<char>>,
    k: int,
)
    requires
        0 <= k <= lines.len(),
        parse_lines(op, ar, lines.subrange(0, k)) is Err,
    ensures
        parse_lines(op, ar, lines) == parse_lines(op, ar, lines.subrange(0, k)),
    decreases lines.len() - k,
{
    if k == lines.len() {
        assert(lines.subrange(0, k) =~= lines);
    } else {
        assert(lines.subrange(0, k + 1).drop_last() =~= lines.subrange(0, k));
        lemma_parse_error_persists(op, ar, lines, k + 1);
    }
}

impl Function {
    /// `list_cmd` with each positional `{{arg.N}}` placeholder replaced by
    /// the argument at that index.
    pub fn build_command(&self, args: &Vec<String>) -> (r: String)
        ensures
            r@ == subst_args_from(self.list_cmd@, args.deep_view(), 0),
    {
        let ghost dv = args.deep_view();
        let mut cmd = self.list_cmd.clone();
        let n = args.len();
        let mut i: usize = 0;
        proof {
            assert(dv.skip(0) =~= dv);
        }
        while i < n
            invariant
                n == dv.len(),
                dv == args.deep_view(),
                0 <= i <= n,
                subst_args_from(cmd@, dv.skip(i as int), i as nat) == subst_args_from(
                    self.list_cmd@,
                    dv,
                    0,
                ),
            decreases n - i,
        {
            let mut pat = String::from_str("{{arg.");
            pat.append(usize_to_string(i).as_str());
            pat.append("}}");
            proof {
                assert(pat@ == arg_token(i as nat));
                assert(dv.skip(i as int)[0] == dv[i as int]);
                assert(dv.skip(i as int).skip(1) =~= dv.skip(i + 1));
            }
            cmd = replace_all(cmd.as_str(), pat.as_str(), args[i].as_str());
            i = i + 1;
        }
        proof {
            assert(dv.skip(n as int) =~= Seq::<Seq<char>>::empty());
        }
        cmd
    }

    /// Parse listing output into deduplicated, index-aligned options and
    /// arguments. A regex that does not compile, or a line whose argument
    /// captures are not exactly one, is fatal for the whole batch.
    pub fn create_selection_input(&self, list_text: &str) -> (r: Result<SelectionInput, Error>)
        ensures
            ({
                let op = opt_str_view(self.select_option_regex);
                let ar = opt_str_view(self.select_arg_regex);
                let parsed = selection_pairs(op, ar, list_text@);
                match r {
                    Ok(sel) => {
                        &&& (op matches Some(p) ==> regex_valid(p))
                        &&& (ar matches Some(p) ==> regex_valid(p))
                        &&& parsed is Ok
                        &&& sel.options.deep_view() == entry_keys(parsed->Ok_0)
                        &&& sel.args.deep_view() == entry_values(parsed->Ok_0)
                        &&& sel.options@.len() == sel.args@.len()
                        &&& forall|a: int, b: int|
                            0 <= a < b < sel.options.deep_view().len()
                                ==> sel.options.deep_view()[a] != sel.options.deep_view()[b]
                    },
                    Err(Error::InvalidOptionRegex { pattern }) => op == Some(pattern@)
                        && !regex_valid(pattern@),
                    Err(Error::InvalidArgRegex { pattern }) => ar == Some(pattern@) && !regex_valid(
                        pattern@,
                    ) && (op matches Some(p) ==> regex_valid(p)),
                    Err(Error::NoArgCapture { line }) => parsed matches Err(e) && e.0 == line@
                        && e.1 == 0 && (op matches Some(p) ==> regex_valid(p)) && (
                        ar matches Some(p) ==> regex_valid(p)),
                    Err(Error::MultipleArgCaptures { line, count }) => parsed matches Err(e) && e.0
                        == line@ && e.1 == count && count > 1 && (
                        op matches Some(p) ==> regex_valid(p)) && (
                        ar matches Some(p) ==> regex_valid(p)),
                    Err(_) => false,
                }
            }),
    {
        let ghost op = opt_str_view(self.select_option_regex);
        let ghost ar = opt_str_view(self.select_arg_regex);
        let op_re: Option<CompiledRegex> = match &self.select_option_regex {
            None => None,
            Some(p) => match CompiledRegex::compile(p.as_str()) {
                Some(c) => Some(c),
                None => {
                    return Err(Error::InvalidOptionRegex { pattern: p.clone() });
                },
            },
        };
        let ar_re: Option<CompiledRegex> = match &self.select_arg_regex {
            None => None,
            Some(p) => match CompiledRegex::compile(p.as_str()) {
                Some(c) => Some(c),
                None => {
                    return Err(Error::InvalidArgRegex { pattern: p.clone() });
                },
            },
        };
        let lines = split_char(list_text, '\n');
        let ghost lv = split_seq(list_text@, '\n');
        let mut dedup = ConstMap::new();
        let n = lines.len();
        let mut i: usize = 0;
        proof {
            assert(lv.subrange(0, 0) =~= Seq::<Seq<char>>::empty());
        }
        while i < n
            invariant
                n == lv.len(),
                lv == split_seq(list_text@, '\n'),
                lines.deep_view() == lv,
                0 <= i <= n,
                match op_re {
                    Some(c) => op == Some(c.pattern()),
                    None => op is None,
                },
                match ar_re {
                    Some(c) => ar == Some(c.pattern()),
                    None => ar is None,
                },
                op == opt_str_view(self.select_option_regex),
                ar == opt_str_view(self.select_arg_regex),
                (op matches Some(p) ==> regex_valid(p)),
                (ar matches Some(p) ==> regex_valid(p)),
                parse_lines(op, ar, lv.subrange(0, i as int)) is Ok,
                dedup.wf(),
                dedup.entry_seq() == dedup_pairs(parse_lines(op, ar, lv.subrange(0, i as int))->Ok_0),
            decreases n - i,
        {
            let ghost prefix = lv.subrange(0, i as int);
            let ghost acc = parse_lines(op, ar, prefix)->Ok_0;
            proof {
                assert(lv.subrange(0, i + 1).drop_last() =~= prefix);
                assert(lv.subrange(0, i + 1).last() == lv[i as int]);
                assert(lines.deep_view()[i as int] == lines@[i as int]@);
            }
            if lines[i].unicode_len() == 0 {
                i = i + 1;
                continue ;
            }
            let name: String = match &op_re {
                None => {
                    proof {
                        assert(concat_all(capture_parts(op, lv[i as int]).skip(1))
                            =~= Seq::<char>::empty());
                        assert(lv[i as int] + Seq::<char>::empty() =~= lv[i as int]);
                    }
                    lines[i].clone()
                },
                Some(re) => {
                    let parts = if re.captures_len() == 1 {
                        re.match_texts(lines[i].as_str())
                    } else {
                        re.group_values(lines[i].as_str())
                    };
                    concat_strings(&parts)
                },
            };
            let arg: String = match &ar_re {
                None => lines[i].clone(),
                Some(re) => {
                    let parts = if re.captures_len() == 1 {
                        re.match_texts(lines[i].as_str())
                    } else {
                        re.group_values(lines[i].as_str())
                    };
                    if parts.len() == 0 {
                        proof {
                            assert(capture_parts(ar, lv[i as int]).len() == 0);
                            assert(parse_lines(op, ar, lv.subrange(0, i + 1)) == Err::<
                                Seq<(Seq<char>, Seq<char>)>,
                                _,
                            >((lv[i as int], 0nat)));
                            lemma_parse_error_persists(op, ar, lv, i + 1);
                        }
                        return Err(Error::NoArgCapture { line: lines[i].clone() });
                    }
                    if parts.len() > 1 {
                        proof {
                            assert(capture_parts(ar, lv[i as int]).len() == parts@.len());
                            assert(parse_lines(op, ar, lv.subrange(0, i + 1)) == Err::<
                                Seq<(Seq<char>, Seq<char>)>,
                                _,
                            >((lv[i as int], parts@.len() as nat)));
                            lemma_parse_error_persists(op, ar, lv, i + 1);
                        }
                        return Err(
                            Error::MultipleArgCaptures { line: lines[i].clone(), count: parts.len() },
                        );
                    }
                    parts[0].clone()
                },
            };
            proof {
                assert(capture_parts(ar, lv[i as int]).len() == 1);
                assert(name@ == line_name(op, lv[i as int]));
                assert(arg@ == capture_parts(ar, lv[i as int])[0]);
                assert(parse_lines(op, ar, lv.subrange(0, i + 1)) == Ok::<_, (Seq<char>, nat)>(
                    acc.push((name@, arg@)),
                ));
                assert(acc.push((name@, arg@)).drop_last() =~= acc);
            }
            dedup.insert(name, arg);
            i = i + 1;
        }
        proof {
            assert(lv.subrange(0, n as int) =~= lv);
            assert(selection_pairs(op, ar, list_text@) == Ok::<_, (Seq<char>, nat)>(
                dedup_pairs(parse_lines(op, ar, lv)->Ok_0),
            ));
            lemma_wf_keys_distinct(dedup);
        }
        let (options, args) = dedup.keys_and_values();
        proof {
            assert(options.deep_view().len() == options@.len());
            assert(args.deep_view().len() == args@.len());
            assert(entry_keys(dedup.entry_seq()).len() == entry_values(dedup.entry_seq()).len());
        }
        Ok(SelectionInput { options, args })
    }
}

/// The first listing function of `fs` whose id is `id`.
pub open spec fn find_function_in(fs: Seq<Function>, id: Seq<char>) -> Option<Function>
    decreases fs.len(),
{
    if fs.len() == 0 {
        None
    } else if fs[0].id@ == id {
        Some(fs[0])
    } else {
        find_function_in(fs.skip(1), id)
    }
}

/// Look the listing function a target references up by id. An id no
/// function carries is fatal, before any command runs.
pub fn find_function<'a>(functions: &'a Vec<Function>, id: &str) -> (r: Result<&'a Function, Error>)
    ensures
        match r {
            Ok(f) => find_function_in(functions@, id@) == Some(*f),
            Err(Error::UnknownFunctionId { id: missing }) => missing@ == id@ && find_function_in(
                functions@,
                id@,
            ) is None,
            Err(_) => false,
        },
{
    let n = functions.len();
    let mut i: usize = 0;
    proof {
        assert(functions@.skip(0) =~= functions@);
    }
    while i < n
        invariant
            n == functions@.len(),
            0 <= i <= n,
            find_function_in(functions@, id@) == find_function_in(functions@.skip(i as int), id@),
        decreases n - i,
    {
        proof {
            assert(functions@.skip(i as int)[0] == functions@[i as int]);
            assert(functions@.skip(i as int).skip(1) =~= functions@.skip(i + 1));
        }
        if str_eq(functions[i].id.as_str(), id) {
            return Ok(&functions[i]);
        }
        i = i + 1;
    }
    proof {
        assert(functions@.skip(n as int) =~= Seq::<Function>::empty());
    }
    Err(Error::UnknownFunctionId { id: id.to_owned() })
}

/// The argument aligned with the first option equal to `choice`.
pub open spec fn arg_for(opts: Seq<Seq<char>>, args: Seq<Seq<char>>, choice: Seq<char>) -> Option<
    Seq<char>,
>
    decreases opts.len(),
{
    if opts.len() == 0 || args.len() == 0 {
        None
    } else if opts[0] == choice {
        Some(args[0])
    } else {
        arg_for(opts.skip(1), args.skip(1), choice)
    }
}

/// The argument paired with a chosen display name: the one at the first
/// index whose option equals the choice.
pub fn arg_for_option<'a>(input: &'a SelectionInput, choice: &str) -> (r: Option<&'a String>)
    ensures
        match r {
            Some(a) => arg_for(input.options.deep_view(), input.args.deep_view(), choice@) == Some(
                a@,
            ),
            None => arg_for(input.options.deep_view(), input.args.deep_view(), choice@) is None,
        },
{
    let ghost opts = input.options.deep_view();
    let ghost args = input.args.deep_view();
    let n = if input.options.len() < input.args.len() {
        input.options.len()
    } else {
        input.args.len()
    };
    let mut i: usize = 0;
    proof {
        assert(opts.skip(0) =~= opts);
        assert(args.skip(0) =~= args);
    }
    while i < n
        invariant
            opts == input.options.deep_view(),
            args == input.args.deep_view(),
            n <= opts.len(),
            n <= args.len(),
            n == if opts.len() < args.len() {
                opts.len()
            } else {
                args.len()
            },
            0 <= i <= n,
            arg_for(opts, args, choice@) == arg_for(opts.skip(i as int), args.skip(i as int), choice@),
        decreases n - i,
    {
        proof {
            assert(opts.skip(i as int)[0] == opts[i as int]);
            assert(args.skip(i as int)[0] == args[i as int]);
            assert(opts.skip(i as int).skip(1) =~= opts.skip(i + 1));
            assert(args.skip(i as int).skip(1) =~= args.skip(i + 1));
        }
        if str_eq(input.options[i].as_str(), choice) {
            return Some(&input.args[i]);
        }
        i = i + 1;
    }
    proof {
        assert(opts.skip(n as int).len() == 0 || args.skip(n as int).len() == 0);
    }
    None
}

} // verus!
