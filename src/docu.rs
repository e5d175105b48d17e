//! The documentation unit of one function and its Markdown rendering.
use vstd::prelude::*;
use vstd::string::StringExecFns;

verus! {

/// One tagged line of a documentation comment.
pub enum DocuInfo {
    /// `@param <name> <description>`
    Parameter(String, String),
    /// `@global <name> <description>`
    Global(String, String),
    /// `@return <description>`
    Return(String),
}

/// The mathematical value of a [`DocuInfo`].
pub enum DocuInfoView {
    Parameter(Seq<char>, Seq<char>),
    Global(Seq<char>, Seq<char>),
    Return(Seq<char>),
}

impl View for DocuInfo {
    type V = DocuInfoView;

    open spec fn view(&self) -> DocuInfoView {
        match self {
            DocuInfo::Parameter(n, d) => DocuInfoView::Parameter(n@, d@),
            DocuInfo::Global(n, d) => DocuInfoView::Global(n@, d@),
            DocuInfo::Return(d) => DocuInfoView::Return(d@),
        }
    }
}

/// The documentation of one function: its comment and its declaration.
pub struct DocuComment {
    /// The free text before the first tag or blank comment line.
    pub description: Option<String>,
    /// The tagged lines, in source order.
    pub infos: Vec<DocuInfo>,
    /// The declaration with an empty body, as shown in the code sample.
    pub func_string: String,
    /// The name of the declared function.
    pub func_name: String,
    /// The parameters of the declaration, each trimmed.
    pub parameters: Vec<String>,
}

/// The mathematical value of a [`DocuComment`].
pub struct DocuCommentView {
    pub description: Option<Seq<char>>,
    pub infos: Seq<DocuInfoView>,
    pub func_string: Seq<char>,
    pub func_name: Seq<char>,
    pub parameters: Seq<Seq<char>>,
}

impl View for DocuComment {
    type V = DocuCommentView;

    open spec fn view(&self) -> DocuCommentView {
        DocuCommentView {
            description: match self.description {
                Some(d) => Some(d@),
                None => None,
            },
            infos: self.infos@.map_values(|i: DocuInfo| i@),
            func_string: self.func_string@,
            func_name: self.func_name@,
            parameters: self.parameters@.map_values(|p: String| p@),
        }
    }
}

/// Whether some tagged line is a parameter.
pub open spec fn has_params_spec(infos: Seq<DocuInfoView>) -> bool {
    exists|k: int| 0 <= k < infos.len() && infos[k] is Parameter
}

/// Whether some tagged line is a global.
pub open spec fn has_globals_spec(infos: Seq<DocuInfoView>) -> bool {
    exists|k: int| 0 <= k < infos.len() && infos[k] is Global
}

/// Whether some tagged line is a return value.
pub open spec fn has_return_spec(infos: Seq<DocuInfoView>) -> bool {
    exists|k: int| 0 <= k < infos.len() && infos[k] is Return
}

/// The description of the first return-value line.
pub open spec fn first_return(infos: Seq<DocuInfoView>) -> Option<Seq<char>>
    decreases infos.len(),
{
    if infos.len() == 0 {
        None
    } else {
        match infos[0] {
            DocuInfoView::Return(d) => Some(d),
            _ => first_return(infos.drop_first()),
        }
    }
}

/// `s` with every line after the first indented by four spaces, so that
/// text of several lines stays inside the indented body of a fragment.
pub open spec fn indent(s: Seq<char>) -> Seq<char>
    decreases s.len(),
{
    if s.len() == 0 {
        s
    } else if s.last() == '\n' {
        indent(s.drop_last()) + "\n    "@
    } else {
        indent(s.drop_last()).push(s.last())
    }
}

/// The list item of one parameter or global.
pub open spec fn item_md(name: Seq<char>, desc: Seq<char>) -> Seq<char> {
    "    - `#!dae "@ + indent(name) + "` - "@ + indent(desc) + "\n"@
}

/// The list items of the parameter lines, in order.
pub open spec fn param_items(infos: Seq<DocuInfoView>) -> Seq<char>
    decreases infos.len(),
{
    if infos.len() == 0 {
        Seq::empty()
    } else {
        match infos.last() {
            DocuInfoView::Parameter(n, d) => param_items(infos.drop_last()) + item_md(n, d),
            _ => param_items(infos.drop_last()),
        }
    }
}

/// The list items of the global lines, in order.
pub open spec fn global_items(infos: Seq<DocuInfoView>) -> Seq<char>
    decreases infos.len(),
{
    if infos.len() == 0 {
        Seq::empty()
    } else {
        match infos.last() {
            DocuInfoView::Global(n, d) => global_items(infos.drop_last()) + item_md(n, d),
            _ => global_items(infos.drop_last()),
        }
    }
}

/// The heading line of a function.
pub open spec fn heading_md(name: Seq<char>) -> Seq<char> {
    "### `"@ + name + "`\n"@
}

/// Heading, callout, description and code sample.
pub open spec fn head_md(c: DocuCommentView) -> Seq<char> {
    heading_md(c.func_name) + "!!! function \"`"@ + c.func_name + "`\"\n"@ + match c.description {
        Some(d) => "    "@ + indent(d) + "\n"@,
        None => Seq::empty(),
    } + "    ```dae\n    "@ + indent(c.func_string) + "\n    ```\n"@
}

/// The section on parameters, empty where there are none.
pub open spec fn params_md(c: DocuCommentView) -> Seq<char> {
    if has_params_spec(c.infos) {
        "\n    **Parameters**  \n\n"@ + param_items(c.infos)
    } else {
        Seq::empty()
    }
}

/// The section on globals, empty where there are none.
pub open spec fn globals_md(c: DocuCommentView) -> Seq<char> {
    if has_globals_spec(c.infos) {
        "\n    **Globals**  \n\n"@ + global_items(c.infos)
    } else {
        Seq::empty()
    }
}

/// The section on the return value, empty where there is none.
pub open spec fn return_md(c: DocuCommentView) -> Seq<char> {
    match first_return(c.infos) {
        Some(d) => "\n    **Return value**  \n    The function returns "@ + indent(d) + "\n"@,
        None => Seq::empty(),
    }
}

/// The Markdown fragment of one function.
pub open spec fn render(c: DocuCommentView) -> Seq<char> {
    head_md(c) + params_md(c) + globals_md(c) + return_md(c)
}

/// Relies on `String::push`: appends one character.
#[verifier::external_body]
fn push_char(s: &mut String, c: char)
    ensures
        final(s)@ == old(s)@.push(c),
{
    s.push(c);
}

/// Appends `indent(s)` to `md`.
fn push_indented(md: &mut String, s: &String)
    ensures
        final(md)@ == old(md)@ + indent(s@),
{
    let t = crate::text::chars_of(s.as_str());
    let mut i: usize = 0;
    assert(indent(t@.take(0)) =~= Seq::<char>::empty());
    assert(old(md)@ + indent(t@.take(0)) =~= old(md)@);
    while i < t.len()
        invariant
            i <= t@.len(),
            t@ == s@,
            md@ == old(md)@ + indent(t@.take(i as int)),
        decreases t@.len() - i,
    {
        let ghost prev = md@;
        assert(t@.take(i + 1).drop_last() =~= t@.take(i as int));
        if t[i] == '\n' {
            md.append("\n    ");
            assert(md@ =~= old(md)@ + indent(t@.take(i + 1)));
        } else {
            push_char(md, t[i]);
            assert(md@ =~= old(md)@ + indent(t@.take(i + 1)));
        }
        i = i + 1;
    }
    assert(t@.take(i as int) =~= t@);
}

impl DocuComment {
    /// Renders this function's documentation as a Markdown fragment.
    pub fn generate_md(&self) -> (md: String)
        ensures
            md@ == render(self@),
    {
        let mut md = String::new();
        md.append("### `");
        md.append(self.func_name.as_str());
        md.append("`\n");
        md.append("!!! function \"`");
        md.append(self.func_name.as_str());
        md.append("`\"\n");
        match &self.description {
            Some(desc) => {
                md.append("    ");
                push_indented(&mut md, desc);
                md.append("\n");
            },
            None => {},
        }
        md.append("    ```dae\n    ");
        push_indented(&mut md, &self.func_string);
        md.append("\n    ```\n");
        assert(md@ =~= head_md(self@));
        let ghost head = md@;
        if self.has_params() {
            md.append("\n    **Parameters**  \n\n");
            self.push_items(&mut md, true);
        }
        assert(md@ =~= head + params_md(self@));
        let ghost upto_params = md@;
        if self.has_globals() {
            md.append("\n    **Globals**  \n\n");
            self.push_items(&mut md, false);
        }
        assert(md@ =~= upto_params + globals_md(self@));
        let ghost upto_globals = md@;
        match self.first_return() {
            Some(desc) => {
                md.append("\n    **Return value**  \n    The function returns ");
                push_indented(&mut md, desc);
                md.append("\n");
            },
            None => {},
        }
        assert(md@ =~= upto_globals + return_md(self@));
        md
    }

    /// Appends the list items of the parameters (or of the globals).
    fn push_items(&self, md: &mut String, params: bool)
        ensures
            final(md)@ == old(md)@ + if params {
                param_items(self@.infos)
            } else {
                global_items(self@.infos)
            },
    {
        let ghost infos = self@.infos;
        let mut i: usize = 0;
        assert(old(md)@ + param_items(infos.take(0)) =~= old(md)@);
        assert(old(md)@ + global_items(infos.take(0)) =~= old(md)@);
        while i < self.infos.len()
            invariant
                i <= self.infos@.len(),
                infos == self@.infos,
                md@ == old(md)@ + if params {
                    param_items(infos.take(i as int))
                } else {
                    global_items(infos.take(i as int))
                },
            decreases self.infos@.len() - i,
        {
            assert(infos.take(i + 1).drop_last() =~= infos.take(i as int));
            match &self.infos[i] {
                DocuInfo::Parameter(name, desc) => {
                    if params {
                        self.push_item(md, name, desc);
                    }
                },
                DocuInfo::Global(name, desc) => {
                    if !params {
                        self.push_item(md, name, desc);
                    }
                },
                DocuInfo::Return(_) => {},
            }
            assert(md@ =~= old(md)@ + if params {
                param_items(infos.take(i + 1))
            } else {
                global_items(infos.take(i + 1))
            });
            i = i + 1;
        }
        assert(infos.take(i as int) =~= infos);
    }

    /// Appends one list item.
    fn push_item(&self, md: &mut String, name: &String, desc: &String)
        ensures
            final(md)@ == old(md)@ + item_md(name@, desc@),
    {
        md.append("    - `#!dae ");
        push_indented(md, name);
        md.append("` - ");
        push_indented(md, desc);
        md.append("\n");
        assert(md@ =~= old(md)@ + item_md(name@, desc@));
    }

    /// Whether some tagged line is a parameter.
    pub fn has_params(&self) -> (r: bool)
        ensures
            r == has_params_spec(self@.infos),
    {
        let mut i: usize = 0;
        while i < self.infos.len()
            invariant
                i <= self.infos@.len(),
                forall|k: int| 0 <= k < i ==> !(self@.infos[k] is Parameter),
            decreases self.infos@.len() - i,
        {
            if let DocuInfo::Parameter(_, _) = &self.infos[i] {
                assert(self@.infos[i as int] is Parameter);
                return true;
            }
            i = i + 1;
        }
        false
    }

    /// Whether some tagged line is a global.
    pub fn has_globals(&self) -> (r: bool)
        ensures
            r == has_globals_spec(self@.infos),
    {
        let mut i: usize = 0;
        while i < self.infos.len()
            invariant
                i <= self.infos@.len(),
                forall|k: int| 0 <= k < i ==> !(self@.infos[k] is Global),
            decreases self.infos@.len() - i,
        {
            if let DocuInfo::Global(_, _) = &self.infos[i] {
                assert(self@.infos[i as int] is Global);
                return true;
            }
            i = i + 1;
        }
        false
    }

    /// Whether some tagged line is a return value.
    pub fn has_return(&self) -> (r: bool)
        ensures
            r == has_return_spec(self@.infos),
    {
        let mut i: usize = 0;
        while i < self.infos.len()
            invariant
                i <= self.infos@.len(),
                forall|k: int| 0 <= k < i ==> !(self@.infos[k] is Return),
            decreases self.infos@.len() - i,
        {
            if let DocuInfo::Return(_) = &self.infos[i] {
                assert(self@.infos[i as int] is Return);
                return true;
            }
            i = i + 1;
        }
        false
    }

    /// The description of the first return-value line, if any.
    pub fn first_return(&self) -> (r: Option<&String>)
        ensures
            r matches Some(d) ==> first_return(self@.infos) == Some(d@),
            r is None ==> first_return(self@.infos) is None,
    {
        let ghost infos = self@.infos;
        let mut i: usize = 0;
        assert(infos.subrange(0, infos.len() as int) =~= infos);
        while i < self.infos.len()
            invariant
                i <= self.infos@.len(),
                infos == self@.infos,
                first_return(infos) == first_return(infos.subrange(i as int, infos.len() as int)),
            decreases self.infos@.len() - i,
        {
            assert(infos.subrange(i as int, infos.len() as int).drop_first() =~= infos.subrange(
                i + 1,
                infos.len() as int,
            ));
            if let DocuInfo::Return(d) = &self.infos[i] {
                return Some(d);
            }
            i = i + 1;
        }
        None
    }
}

} // verus!
