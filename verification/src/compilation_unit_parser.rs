//! Walking the entries of one compilation unit: its table of source lines,
//! its subprograms, the calls inlined into them, and their variables.

use vstd::prelude::*;
use vstd::string::*;
use crate::debug_entry::{
    DebugEntry, LineProgram, LineRow, TableString, UnitData, DW_TAG_FORMAL_PARAMETER,
    DW_TAG_INLINED_SUBROUTINE, DW_TAG_SUBPROGRAM, DW_TAG_VARIABLE,
};
use crate::die_extensions::{
    DebugEntryExt,
    file_record, locations_of, ranges_of, source_of, text_of, type_of, ParsingError, Property,
};
use crate::text::{join_path, joined};
use crate::ParsingOptions;
use crate::types::data_structures::{
    clone_ranges, clone_variables, lemma_inlined_views, line_views, method_views,
    subprogram_views, text_views, variable_views, AddressRange, CompilationUnit, InlinedMethod,
    InlinedMethodView, LineNumberInfo, LineNumberInfoView, Method, MethodType, MethodTypeView,
    MethodView, Subprogram, SubprogramView, Variable, VariableView,
};

verus! {

/// What `rustc_demangle::demangle` writes for the symbol `name`.
pub uninterp spec fn demangled(name: Seq<char>) -> Seq<char>;

/// Has `rustc_demangle::demangle` take the symbol apart and writes the
/// result with its `Display`: the plain name of a mangled symbol, and any
/// other text as it is.
#[verifier::external_body]
fn demangle_name(name: &str) -> (plain: String)
    ensures
        plain@ == demangled(name@),
{
    rustc_demangle::demangle(name).to_string()
}

/// The value of a result that is a method.
pub open spec fn method_result(r: Result<Method, ParsingError>) -> Result<MethodView, Seq<char>> {
    match r {
        Ok(m) => Ok(m@),
        Err(e) => Err(e@),
    }
}

/// The value of a result that is a variable.
pub open spec fn variable_result(r: Result<Variable, ParsingError>) -> Result<
    VariableView,
    Seq<char>,
> {
    match r {
        Ok(v) => Ok(v@),
        Err(e) => Err(e@),
    }
}

/// The name that a method is reported under.
pub open spec fn reported_name(name: Seq<char>, demangle: bool) -> Seq<char> {
    if demangle {
        demangled(name)
    } else {
        name
    }
}

/// The linkage name of an entry, or the text that stands for an unknown one.
pub open spec fn linkage_name_or_unknown(unit: UnitData, entry: DebugEntry) -> Seq<char> {
    match text_of(unit, entry, Property::LinkageName) {
        Ok(name) => name,
        Err(_) => "<UNKNOWN>"@,
    }
}

/// The method that a subprogram entry or an inlined-call entry stands for,
/// before anything is put into it: its name, its address ranges, what its
/// kind has (for a subprogram the linkage name, for an inlined call the call
/// site and `depth`), and where it is declared. The first of these that the
/// entry does not give is the error.
pub open spec fn created_method(unit: UnitData, entry: DebugEntry, depth: u64, demangle: bool) -> Result<
    MethodView,
    Seq<char>,
> {
    match text_of(unit, entry, Property::Name) {
        Err(m) => Err(m),
        Ok(name) => match ranges_of(unit, entry) {
            Err(m) => Err(m),
            Ok(address_ranges) => {
                let kind = if entry.tag == DW_TAG_SUBPROGRAM {
                    Ok(
                        MethodTypeView::SubprogramType {
                            inlined_methods: Seq::empty(),
                            linkage_name: linkage_name_or_unknown(unit, entry),
                        },
                    )
                } else {
                    match source_of(unit, entry, Property::CallSiteRange) {
                        Ok(call_site_range) => Ok(
                            MethodTypeView::InlinedMethodType {
                                call_site_range,
                                inline_depth: depth,
                            },
                        ),
                        Err(m) => Err(m),
                    }
                };
                match kind {
                    Err(m) => Err(m),
                    Ok(method_type) => match source_of(unit, entry, Property::DeclRange) {
                        Err(m) => Err(m),
                        Ok(decl_range) => Ok(
                            MethodView {
                                method_type,
                                method_name: reported_name(name, demangle),
                                variables: Seq::empty(),
                                decl_range,
                                address_ranges,
                            },
                        ),
                    },
                }
            },
        },
    }
}

impl Method {
    /// Makes the method that a subprogram entry or an inlined-call entry
    /// stands for.
    pub fn create(entry: &DebugEntry, unit: &UnitData, depth: u64, demangle: bool) -> (r: Result<
        Method,
        ParsingError,
    >)
        requires
            entry.tag == DW_TAG_SUBPROGRAM || entry.tag == DW_TAG_INLINED_SUBROUTINE,
        ensures
            method_result(r) == created_method(*unit, *entry, depth, demangle),
            r matches Ok(m) ==> (m.method_type is SubprogramType <==> entry.tag
                == DW_TAG_SUBPROGRAM) && (m.method_type matches MethodType::SubprogramType {
                inlined_methods,
                ..
            } ==> inlined_methods@.len() == 0),
    {
        let name = match entry.try_get_name(unit) {
            Ok(name) => name,
            Err(e) => { return Err(e); },
        };
        let address_ranges = match entry.try_get_address_ranges(unit) {
            Ok(ranges) => ranges,
            Err(e) => { return Err(e); },
        };
        let method_type = if entry.tag == DW_TAG_SUBPROGRAM {
            let linkage_name = match entry.try_get_linkage_name(unit) {
                Ok(name) => name,
                Err(_) => String::from_str("<UNKNOWN>"),
            };
            MethodType::SubprogramType { inlined_methods: Vec::new(), linkage_name }
        } else {
            match entry.try_get_call_site_range(unit) {
                Ok(call_site_range) => MethodType::InlinedMethodType {
                    call_site_range,
                    inline_depth: depth,
                },
                Err(e) => { return Err(e); },
            }
        };
        let decl_range = match entry.try_get_decl_range(unit) {
            Ok(range) => range,
            Err(e) => { return Err(e); },
        };
        let method_name = if demangle {
            demangle_name(name.as_str())
        } else {
            name
        };
        let method = Method {
            method_type,
            method_name,
            variables: Vec::new(),
            decl_range,
            address_ranges,
        };
        proof {
            assert(variable_views(method.variables@) =~= Seq::empty());
            if method.method_type is SubprogramType {
                lemma_inlined_views(method);
                assert(method@.method_type->inlined_methods =~= Seq::empty());
            }
            assert(method@ == created_method(*unit, *entry, depth, demangle)->Ok_0);
        }
        Ok(method)
    }
}

/// The variable that a variable entry or a parameter entry stands for: its
/// name, where it lives, and its type. The first of these that the entry
/// does not give is the error. The ranges of the enclosing scope are kept
/// only where the variable has no location of its own.
pub open spec fn created_variable(unit: UnitData, entry: DebugEntry, ranges: Seq<AddressRange>) -> Result<
    VariableView,
    Seq<char>,
> {
    match text_of(unit, entry, Property::Name) {
        Err(m) => Err(m),
        Ok(var_name) => match locations_of(unit, entry, ranges) {
            Err(m) => Err(m),
            Ok(register_locations) => match type_of(unit, entry) {
                Err(m) => Err(m),
                Ok(var_type_id) => Ok(
                    VariableView {
                        address_ranges: if register_locations.len() == 0 {
                            ranges
                        } else {
                            Seq::empty()
                        },
                        register_locations,
                        var_name,
                        var_type_id,
                    },
                ),
            },
        },
    }
}

impl Variable {
    /// Makes the variable that a variable entry or a parameter entry stands
    /// for; `address_ranges` are those of the scope that holds it.
    pub fn create(entry: &DebugEntry, address_ranges: &Vec<AddressRange>, unit: &UnitData) -> (r:
        Result<Variable, ParsingError>)
        ensures
            variable_result(r) == created_variable(*unit, *entry, address_ranges@),
    {
        let var_name = match entry.try_get_name(unit) {
            Ok(name) => name,
            Err(e) => { return Err(e); },
        };
        let register_locations = match entry.try_get_variable_register(unit, address_ranges) {
            Ok(locations) => locations,
            Err(e) => { return Err(e); },
        };
        let var_type_id = match entry.try_get_type_id(unit) {
            Ok(id) => id,
            Err(e) => { return Err(e); },
        };
        let own_ranges = if register_locations.len() == 0 {
            clone_ranges(address_ranges)
        } else {
            Vec::new()
        };
        Ok(Variable { address_ranges: own_ranges, register_locations, var_name, var_type_id })
    }
}

/// The address ranges of an entry, or those of its parent where it has none.
pub open spec fn ranges_or_parent(unit: UnitData, entry: DebugEntry, parent: Seq<AddressRange>) -> Seq<
    AddressRange,
> {
    match ranges_of(unit, entry) {
        Ok(ranges) => ranges,
        Err(_) => parent,
    }
}

/// Reads the address ranges of an entry and takes those of its parent where
/// it has none.
pub fn get_address_ranges_or_take_parent(
    entry: &DebugEntry,
    unit: &UnitData,
    parent_ranges: &Vec<AddressRange>,
) -> (ranges: Vec<AddressRange>)
    ensures
        ranges@ == ranges_or_parent(*unit, *entry, parent_ranges@),
{
    match entry.try_get_address_ranges(unit) {
        Ok(ranges) => ranges,
        Err(_) => clone_ranges(parent_ranges),
    }
}

/// The path of the file that a row of the line program names: the
/// compilation directory, then the file's directory unless that is the
/// compilation directory, then the file's name. A row that names no file of
/// the table has the empty path. A string that cannot be read is the error.
pub open spec fn row_path(unit: UnitData, row: LineRow) -> Result<Seq<char>, Seq<char>> {
    match file_record(unit, row.file_index) {
        None => Ok(Seq::empty()),
        Some(file) => {
            let base = match unit.comp_dir {
                Some(dir) => dir@,
                None => Seq::empty(),
            };
            let in_directory = if file.directory_index != 0 {
                match file.directory {
                    TableString::Text(dir) => Ok(joined(base, dir@)),
                    TableString::Missing => Ok(base),
                    TableString::Unreadable(m) => Err(m@),
                }
            } else {
                Ok(base)
            };
            match in_directory {
                Err(m) => Err(m),
                Ok(path) => match file.path_name {
                    TableString::Text(name) => Ok(joined(path, name@)),
                    TableString::Missing => Ok(path),
                    TableString::Unreadable(m) => Err(m@),
                },
            }
        },
    }
}

/// What a row of the line program is reported as. A row that closes a run of
/// addresses is reported with the end-of-sequence marker for a file and with
/// line and column zero: the next row starts a new run.
pub open spec fn row_info(unit: UnitData, row: LineRow) -> Result<LineNumberInfoView, Seq<char>> {
    if row.end_sequence {
        Ok(
            LineNumberInfoView {
                address: row.address,
                file_path: "end-sequence"@,
                col: 0,
                line: 0,
            },
        )
    } else {
        match row_path(unit, row) {
            Ok(file_path) => Ok(
                LineNumberInfoView {
                    address: row.address,
                    file_path,
                    col: row.column,
                    line: row.line,
                },
            ),
            Err(m) => Err(m),
        }
    }
}

/// What the first `count` rows of a line program are reported as, or the
/// error of the first of them that has one.
pub open spec fn rows_info(unit: UnitData, rows: Seq<LineRow>, count: int) -> Result<
    Seq<LineNumberInfoView>,
    Seq<char>,
>
    decreases count,
{
    if count <= 0 || count > rows.len() {
        Ok(Seq::empty())
    } else {
        match rows_info(unit, rows, count - 1) {
            Err(m) => Err(m),
            Ok(before) => match row_info(unit, rows[count - 1]) {
                Ok(info) => Ok(before.push(info)),
                Err(m) => Err(m),
            },
        }
    }
}

/// The table of source lines of a unit: one row for each row of its line
/// program, in order; empty where the unit has no line program. The error of
/// the first row that has one, or else the reader's own, is the error.
pub open spec fn line_table(unit: UnitData) -> Result<Seq<LineNumberInfoView>, Seq<char>> {
    match unit.line_program {
        None => Ok(Seq::empty()),
        Some(program) => match rows_info(unit, program.rows@, program.rows@.len() as int) {
            Err(m) => Err(m),
            Ok(rows) => match program.failure {
                Some(m) => Err(m@),
                None => Ok(rows),
            },
        },
    }
}

fn read_row_path(unit: &UnitData, program: &LineProgram, row: &LineRow) -> (r: Result<
    String,
    ParsingError,
>)
    requires
        unit.line_program == Some(*program),
    ensures
        match r {
            Ok(path) => row_path(*unit, *row) == Ok::<Seq<char>, Seq<char>>(path@),
            Err(e) => row_path(*unit, *row) == Err::<Seq<char>, Seq<char>>(e@),
        },
{
    if row.file_index >= program.files.len() as u64 {
        return Ok(String::new());
    }
    let file = match &program.files[row.file_index as usize] {
        Some(file) => file,
        None => { return Ok(String::new()); },
    };
    let mut path = match &unit.comp_dir {
        Some(dir) => dir.clone(),
        None => String::new(),
    };
    if file.directory_index != 0 {
        match &file.directory {
            TableString::Text(dir) => {
                path = join_path(path, dir.as_str());
            },
            TableString::Missing => {},
            TableString::Unreadable(m) => {
                return Err(ParsingError::Failure(m.clone()));
            },
        }
    }
    match &file.path_name {
        TableString::Text(name) => Ok(join_path(path, name.as_str())),
        TableString::Missing => Ok(path),
        TableString::Unreadable(m) => Err(ParsingError::Failure(m.clone())),
    }
}

/// The value of a compilation unit without its options.
pub ghost struct CompilationUnitView {
    pub methods: Seq<MethodView>,
    pub subprograms: Seq<SubprogramView>,
    pub ranges: Seq<AddressRange>,
    pub line_number_info: Seq<LineNumberInfoView>,
    pub parsing_errors: Seq<Seq<char>>,
}

impl<'a> View for CompilationUnit<'a> {
    type V = CompilationUnitView;

    open spec fn view(&self) -> CompilationUnitView {
        CompilationUnitView {
            methods: method_views(self.methods@),
            subprograms: subprogram_views(self.subprograms@),
            ranges: self.ranges@,
            line_number_info: line_views(self.line_number_info@),
            parsing_errors: text_views(self.parsing_errors@),
        }
    }
}

/// Whether a method can be reported as a subprogram: it is one, and what it
/// holds are inlined calls.
pub open spec fn translatable(m: MethodView) -> bool {
    &&& m.method_type is SubprogramType
    &&& forall|i: int|
        0 <= i < m.method_type->inlined_methods.len() ==> (
        #[trigger] m.method_type->inlined_methods[i]).method_type is InlinedMethodType
}

/// An inlined call as it is reported.
pub open spec fn translated_inlined(m: MethodView) -> InlinedMethodView {
    InlinedMethodView {
        inline_depth: m.method_type->inline_depth,
        call_site_range: m.method_type->call_site_range,
        method_name: m.method_name,
        variables: m.variables,
        decl_range: m.decl_range,
        address_ranges: m.address_ranges,
    }
}

/// A subprogram as it is reported: with everything it has, and with the
/// calls inlined into it in the same order.
pub open spec fn translated(m: MethodView) -> SubprogramView {
    SubprogramView {
        method_name: m.method_name,
        linkage_name: m.method_type->linkage_name,
        variables: m.variables,
        decl_range: m.decl_range,
        address_ranges: m.address_ranges,
        inlined_methods: m.method_type->inlined_methods.map_values(
            |i: MethodView| translated_inlined(i),
        ),
    }
}

/// The subprograms that a list of methods is reported as, in order.
pub open spec fn translated_all(methods: Seq<MethodView>) -> Seq<SubprogramView> {
    methods.map_values(|m: MethodView| translated(m))
}

fn translate_inlined(method: &Method) -> (inlined: InlinedMethod)
    requires
        method@.method_type is InlinedMethodType,
    ensures
        inlined@ == translated_inlined(method@),
{
    match &method.method_type {
        MethodType::InlinedMethodType { call_site_range, inline_depth } => InlinedMethod {
            inline_depth: *inline_depth,
            call_site_range: call_site_range.clone(),
            method_name: method.method_name.clone(),
            variables: clone_variables(&method.variables),
            decl_range: method.decl_range.clone(),
            address_ranges: clone_ranges(&method.address_ranges),
        },
        MethodType::SubprogramType { inlined_methods: _, linkage_name } => InlinedMethod {
            inline_depth: 0,
            call_site_range: method.decl_range.clone(),
            method_name: linkage_name.clone(),
            variables: Vec::new(),
            decl_range: method.decl_range.clone(),
            address_ranges: Vec::new(),
        },
    }
}

fn translate_method(method: &Method) -> (subprogram: Subprogram)
    requires
        translatable(method@),
    ensures
        subprogram@ == translated(method@),
{
    proof {
        lemma_inlined_views(*method);
    }
    match &method.method_type {
        MethodType::SubprogramType { inlined_methods, linkage_name } => {
            let mut inlined: Vec<InlinedMethod> = Vec::new();
            let mut i: usize = 0;
            while i < inlined_methods.len()
                invariant
                    i <= inlined_methods.len(),
                    inlined.len() == i,
                    method.method_type == (MethodType::SubprogramType {
                        inlined_methods: *inlined_methods,
                        linkage_name: *linkage_name,
                    }),
                    method@.method_type->inlined_methods == method_views(inlined_methods@),
                    translatable(method@),
                    forall|k: int| 0 <= k < i ==> inlined@[k]@ == translated_inlined(inlined_methods@[k]@),
                decreases inlined_methods.len() - i,
            {
                assert(method@.method_type->inlined_methods[i as int] == inlined_methods@[i as int]@);
                inlined.push(translate_inlined(&inlined_methods[i]));
                i += 1;
            }
            let subprogram = Subprogram {
                method_name: method.method_name.clone(),
                linkage_name: linkage_name.clone(),
                variables: clone_variables(&method.variables),
                decl_range: method.decl_range.clone(),
                address_ranges: clone_ranges(&method.address_ranges),
                inlined_methods: inlined,
            };
            proof {
                assert(subprogram@.inlined_methods =~= translated(method@).inlined_methods);
            }
            subprogram
        },
        MethodType::InlinedMethodType { call_site_range: _, inline_depth: _ } => Subprogram {
            method_name: method.method_name.clone(),
            linkage_name: String::new(),
            variables: Vec::new(),
            decl_range: method.decl_range.clone(),
            address_ranges: Vec::new(),
            inlined_methods: Vec::new(),
        },
    }
}

impl<'a> CompilationUnit<'a> {
    /// Reads the line program of the unit into the table of source lines.
    /// Where it cannot be read, nothing changes.
    pub fn parse_line_number_program(&mut self, unit: &UnitData) -> (r: Result<(), ParsingError>)
        ensures
            match r {
                Ok(_) => line_table(*unit) == Ok::<Seq<LineNumberInfoView>, Seq<char>>(
                    final(self)@.line_number_info,
                ) && final(self)@ == (CompilationUnitView {
                    line_number_info: final(self)@.line_number_info,
                    ..old(self)@
                }),
                Err(e) => line_table(*unit) == Err::<Seq<LineNumberInfoView>, Seq<char>>(e@)
                    && final(self)@ == old(self)@,
            },
            final(self).options == old(self).options,
            final(self).methods == old(self).methods,
    {
        let mut line_info: Vec<LineNumberInfo> = Vec::new();
        if let Some(program) = &unit.line_program {
            let mut i: usize = 0;
            proof {
                assert(line_views(line_info@) =~= Seq::empty());
            }
            while i < program.rows.len()
                invariant
                    i <= program.rows.len(),
                    unit.line_program == Some(*program),
                    *self == *old(self),
                    rows_info(*unit, program.rows@, i as int) == Ok::<
                        Seq<LineNumberInfoView>,
                        Seq<char>,
                    >(line_views(line_info@)),
                decreases program.rows.len() - i,
            {
                let row = &program.rows[i];
                let info = if row.end_sequence {
                    LineNumberInfo {
                        address: row.address,
                        file_path: String::from_str("end-sequence"),
                        line: 0,
                        col: 0,
                    }
                } else {
                    match read_row_path(unit, program, row) {
                        Ok(file_path) => LineNumberInfo {
                            address: row.address,
                            file_path,
                            line: row.line,
                            col: row.column,
                        },
                        Err(e) => {
                            proof {
                                lemma_rows_error(*unit, program.rows@, i + 1, program.rows@.len() as int);
                            }
                            return Err(e);
                        },
                    }
                };
                proof {
                    assert(line_views(line_info@.push(info)) =~= line_views(line_info@).push(info@));
                }
                line_info.push(info);
                i += 1;
            }
            if let Some(message) = &program.failure {
                return Err(ParsingError::Failure(message.clone()));
            }
        } else {
            proof {
                assert(line_views(line_info@) =~= Seq::empty());
            }
        }
        self.line_number_info = line_info;
        Ok(())
    }

    /// Reports every method that the traversal found as a subprogram, behind
    /// those that are reported already.
    pub fn translate_methods(&mut self)
        requires
            forall|i: int|
                0 <= i < old(self).methods@.len() ==> translatable(#[trigger] old(self).methods@[i]@),
        ensures
            final(self)@ == (CompilationUnitView {
                subprograms: old(self)@.subprograms + translated_all(old(self)@.methods),
                ..old(self)@
            }),
            final(self).options == old(self).options,
            final(self).methods == old(self).methods,
    {
        let mut i: usize = 0;
        proof {
            assert(subprogram_views(self.subprograms@) =~= old(self)@.subprograms + translated_all(
                old(self)@.methods,
            ).subrange(0, 0));
        }
        while i < self.methods.len()
            invariant
                i <= self.methods.len(),
                self.methods == old(self).methods,
                self.options == old(self).options,
                self.ranges == old(self).ranges,
                self.line_number_info == old(self).line_number_info,
                self.parsing_errors == old(self).parsing_errors,
                forall|k: int|
                    0 <= k < self.methods@.len() ==> translatable(#[trigger] self.methods@[k]@),
                subprogram_views(self.subprograms@) == old(self)@.subprograms + translated_all(
                    old(self)@.methods,
                ).subrange(0, i as int),
            decreases self.methods.len() - i,
        {
            let subprogram = translate_method(&self.methods[i]);
            proof {
                let all = translated_all(old(self)@.methods);
                assert(all[i as int] == subprogram@);
                assert(all.subrange(0, i + 1) =~= all.subrange(0, i as int).push(all[i as int]));
                assert(subprogram_views(self.subprograms@.push(subprogram)) =~= subprogram_views(
                    self.subprograms@,
                ).push(subprogram@));
            }
            self.subprograms.push(subprogram);
            i += 1;
        }
        proof {
            let all = translated_all(old(self)@.methods);
            assert(all.subrange(0, all.len() as int) =~= all);
        }
    }
}

/// Once a row has an error, the rows up to any later one have that error.
pub proof fn lemma_rows_error(unit: UnitData, rows: Seq<LineRow>, count: int, later: int)
    requires
        0 < count <= later <= rows.len(),
        rows_info(unit, rows, count) is Err,
    ensures
        rows_info(unit, rows, later) == rows_info(unit, rows, count),
    decreases later - count,
{
    if count < later {
        lemma_rows_error(unit, rows, count, later - 1);
    }
}


/// What std's `Debug` writes for a text: the text between double quotes,
/// with what cannot be printed escaped.
pub uninterp spec fn debug_text(text: Seq<char>) -> Seq<char>;

/// Has std write a text with its `Debug`, as a message quotes a name.
#[verifier::external_body]
fn debug_quoted(text: &str) -> (quoted: String)
    ensures
        quoted@ == debug_text(text@),
{
    format!("{:?}", text)
}

/// How deep the entries of a unit may be nested, references to abstract
/// origins counted. What lies deeper is not visited, and a message says so.
pub const MAX_TREE_DEPTH: u64 = 256;

/// What a walk over the entries has gathered, and where it stands.
pub struct Traversal {
    /// The subprograms that are finished.
    pub methods: Vec<Method>,
    /// What could not be read so far.
    pub errors: Vec<String>,
    /// Whether an inlined call was found outside of any subprogram.
    pub orphaned: bool,
    /// The subprogram that encloses the entry at hand.
    pub subprogram: Option<Method>,
    /// The inlined call that encloses the entry at hand.
    pub inlined: Option<Method>,
}

/// The mathematical value of a [`Traversal`].
pub ghost struct TraversalView {
    pub methods: Seq<MethodView>,
    pub errors: Seq<Seq<char>>,
    pub orphaned: bool,
    pub subprogram: Option<MethodView>,
    pub inlined: Option<MethodView>,
}

/// The value of a method that may be missing.
pub open spec fn method_option(m: Option<Method>) -> Option<MethodView> {
    match m {
        Some(m) => Some(m@),
        None => None,
    }
}

impl View for Traversal {
    type V = TraversalView;

    open spec fn view(&self) -> TraversalView {
        TraversalView {
            methods: method_views(self.methods@),
            errors: text_views(self.errors@),
            orphaned: self.orphaned,
            subprogram: method_option(self.subprogram),
            inlined: method_option(self.inlined),
        }
    }
}

/// A walk with one more message.
pub open spec fn with_error(t: TraversalView, message: Seq<char>) -> TraversalView {
    TraversalView { errors: t.errors.push(message), ..t }
}

/// A method with one more variable, unless it has that variable already.
pub open spec fn with_variable_in(m: MethodView, v: VariableView) -> MethodView {
    MethodView { variables: crate::types::data_structures::with_variable(m.variables, v), ..m }
}

/// A subprogram with one more inlined call, behind those it has.
pub open spec fn with_inlined(m: MethodView, call: MethodView) -> MethodView {
    MethodView {
        method_type: MethodTypeView::SubprogramType {
            inlined_methods: m.method_type->inlined_methods.push(call),
            linkage_name: m.method_type->linkage_name,
        },
        ..m
    }
}

/// The message for entries that are nested deeper than is followed.
pub open spec fn too_deep_text(offset: usize) -> Seq<char> {
    crate::die_extensions::offset_error_text("The entries are nested too deeply"@, offset)
}

/// The message for an abstract origin that is no entry of the unit.
pub open spec fn no_origin_text(offset: usize) -> Seq<char> {
    crate::die_extensions::offset_error_text(
        "Could not find the entry of DW_AT_abstract_origin"@,
        offset,
    )
}

/// The message for a variable that no method encloses.
pub open spec fn no_method_text(offset: usize) -> Seq<char> {
    crate::die_extensions::offset_error_text("Found a variable outside of any method"@, offset)
}

/// The name of the method that encloses the entry at hand: of the inlined
/// call if there is one, else of the subprogram, else the empty text.
pub open spec fn enclosing_name(t: TraversalView) -> Seq<char> {
    match t.inlined {
        Some(m) => m.method_name,
        None => match t.subprogram {
            Some(m) => m.method_name,
            None => Seq::empty(),
        },
    }
}

/// The message for a variable that could not be made: it quotes the
/// variable's name, the name of the enclosing method, and the reason.
pub open spec fn variable_error_text(
    unit: UnitData,
    entry: DebugEntry,
    t: TraversalView,
    reason: Seq<char>,
) -> Seq<char> {
    let name = match text_of(unit, entry, Property::Name) {
        Ok(name) => name,
        Err(_) => "<UNKNOWN>"@,
    };
    "Failed to parse variable "@ + debug_text(name) + " in inlined method. "@ + debug_text(
        enclosing_name(t),
    ) + ", Some(Failure("@ + debug_text(reason) + "))"@
}

/// The walk after a variable was put where it belongs: into the enclosing
/// inlined call if there is one, else into the enclosing subprogram. A
/// variable that no method encloses is left out, and a message says so.
pub open spec fn with_attached_variable(t: TraversalView, v: VariableView, offset: usize) -> TraversalView {
    match t.inlined {
        Some(m) => TraversalView { inlined: Some(with_variable_in(m, v)), ..t },
        None => match t.subprogram {
            Some(m) => TraversalView { subprogram: Some(with_variable_in(m, v)), ..t },
            None => with_error(t, no_method_text(offset)),
        },
    }
}

/// The walk after the inlined call that was just finished was put behind the
/// inlined calls of the enclosing subprogram, and `enclosing` is the
/// enclosing inlined call again. Without an enclosing subprogram the walk is
/// marked.
pub open spec fn with_attached_call(inner: TraversalView, enclosing: Option<MethodView>) -> TraversalView {
    match inner.inlined {
        None => TraversalView { inlined: enclosing, ..inner },
        Some(call) => match inner.subprogram {
            Some(m) => if m.method_type is SubprogramType {
                TraversalView {
                    subprogram: Some(with_inlined(m, call)),
                    inlined: enclosing,
                    ..inner
                }
            } else {
                TraversalView { orphaned: true, inlined: enclosing, ..inner }
            },
            None => TraversalView { orphaned: true, inlined: enclosing, ..inner },
        },
    }
}

/// The walk after the subprogram that was just finished was put behind the
/// finished ones, and the walk stands where it stood before that
/// subprogram.
pub open spec fn with_finished_subprogram(inner: TraversalView, before: TraversalView) -> TraversalView {
    TraversalView {
        methods: match inner.subprogram {
            Some(m) => inner.methods.push(m),
            None => inner.methods,
        },
        errors: inner.errors,
        orphaned: inner.orphaned,
        subprogram: before.subprogram,
        inlined: before.inlined,
    }
}

/// The walk after one entry was visited as the child of another.
///
/// A subprogram that can be made becomes the enclosing subprogram of its
/// children, with no enclosing inlined call, and is finished behind them; one
/// that cannot be made is passed over with all below it. An inlined call
/// that can be made, one level deeper than `level`, becomes the enclosing
/// inlined call of its children and is put into the enclosing subprogram
/// behind them. A variable or parameter is made, where variables are asked
/// for, and put into the enclosing method; where it cannot be made a message
/// says so. Below every other entry the walk goes on as it stands, with the
/// entry's address ranges or else those of its parent.
pub open spec fn visited(
    unit: UnitData,
    extract: bool,
    demangle: bool,
    entry: DebugEntry,
    parent_ranges: Seq<AddressRange>,
    level: u64,
    fuel: nat,
    t: TraversalView,
) -> TraversalView
    decreases fuel, 0nat, 0nat,
{
    let ranges = ranges_or_parent(unit, entry, parent_ranges);
    if entry.tag == DW_TAG_VARIABLE || entry.tag == DW_TAG_FORMAL_PARAMETER {
        if !extract {
            t
        } else {
            match created_variable(unit, entry, ranges) {
                Ok(v) => with_attached_variable(t, v, entry.offset),
                Err(reason) => with_error(t, variable_error_text(unit, entry, t, reason)),
            }
        }
    } else if fuel == 0 {
        with_error(t, too_deep_text(entry.offset))
    } else if entry.tag == DW_TAG_SUBPROGRAM {
        match created_method(unit, entry, level, demangle) {
            Ok(m) => with_finished_subprogram(
                traversed(
                    unit,
                    extract,
                    demangle,
                    entry,
                    ranges,
                    level,
                    (fuel - 1) as nat,
                    TraversalView { subprogram: Some(m), inlined: None, ..t },
                ),
                t,
            ),
            Err(_) => t,
        }
    } else if entry.tag == DW_TAG_INLINED_SUBROUTINE {
        match created_method(unit, entry, (level + 1) as u64, demangle) {
            Ok(m) => with_attached_call(
                traversed(
                    unit,
                    extract,
                    demangle,
                    entry,
                    ranges,
                    (level + 1) as u64,
                    (fuel - 1) as nat,
                    TraversalView { inlined: Some(m), ..t },
                ),
                t.inlined,
            ),
            Err(_) => t,
        }
    } else {
        traversed(unit, extract, demangle, entry, ranges, level, (fuel - 1) as nat, t)
    }
}

/// The walk after the children of an entry were visited, from the one at
/// `from` on, in order.
pub open spec fn visited_children(
    unit: UnitData,
    extract: bool,
    demangle: bool,
    children: Seq<usize>,
    from: int,
    parent_ranges: Seq<AddressRange>,
    level: u64,
    fuel: nat,
    t: TraversalView,
) -> TraversalView
    decreases fuel, 1nat, children.len() - from,
{
    if from < 0 || from >= children.len() {
        t
    } else {
        let after = if children[from] < unit.entries@.len() {
            visited(
                unit,
                extract,
                demangle,
                unit.entries@[children[from] as int],
                parent_ranges,
                level,
                fuel,
                t,
            )
        } else {
            t
        };
        visited_children(
            unit,
            extract,
            demangle,
            children,
            from + 1,
            parent_ranges,
            level,
            fuel,
            after,
        )
    }
}

/// The walk after everything below an entry was visited: first what is below
/// its abstract origin, if it has one, as if that stood here; then its own
/// children.
pub open spec fn traversed(
    unit: UnitData,
    extract: bool,
    demangle: bool,
    node: DebugEntry,
    parent_ranges: Seq<AddressRange>,
    level: u64,
    fuel: nat,
    t: TraversalView,
) -> TraversalView
    decreases fuel, 2nat, 0nat,
{
    let after_origin = match node.reference(crate::debug_entry::DW_AT_ABSTRACT_ORIGIN) {
        Some(offset) => match unit.position(offset) {
            Some(index) => if fuel == 0 {
                with_error(t, too_deep_text(node.offset))
            } else if 0 <= index < unit.entries@.len() {
                traversed(
                    unit,
                    extract,
                    demangle,
                    unit.entries@[index],
                    parent_ranges,
                    level,
                    (fuel - 1) as nat,
                    t,
                )
            } else {
                t
            },
            None => with_error(t, no_origin_text(node.offset)),
        },
        None => t,
    };
    visited_children(
        unit,
        extract,
        demangle,
        node.children@,
        0,
        parent_ranges,
        level,
        fuel,
        after_origin,
    )
}

/// Whether everything the walk holds can be reported: the finished methods
/// and the enclosing subprogram are subprograms that hold inlined calls, and
/// the enclosing inlined call is one.
pub open spec fn well_nested(t: TraversalView) -> bool {
    &&& forall|i: int|
        0 <= i < t.methods.len() ==> translatable(#[trigger] t.methods[i]) && inlined_below(
            t.methods[i],
        ) && distinct_variables(t.methods[i])
    &&& t.subprogram matches Some(m) ==> translatable(m) && inlined_below(m)
        && distinct_variables(m)
    &&& t.inlined matches Some(m) ==> m.method_type is InlinedMethodType && distinct_variables(m)
}

/// Whether a method holds no variable twice, and neither does any inlined
/// call that it holds.
pub open spec fn distinct_variables(m: MethodView) -> bool {
    &&& m.variables.no_duplicates()
    &&& m.method_type is SubprogramType ==> forall|k: int|
        0 <= k < m.method_type->inlined_methods.len() ==> (
        #[trigger] m.method_type->inlined_methods[k]).variables.no_duplicates()
}

/// A set of variables stays one when a variable is added to it.
pub proof fn lemma_with_variable_distinct(vars: Seq<VariableView>, v: VariableView)
    requires
        vars.no_duplicates(),
    ensures
        crate::types::data_structures::with_variable(vars, v).no_duplicates(),
{
    if !vars.contains(v) {
        let more = vars.push(v);
        assert forall|i: int, j: int|
            0 <= i < more.len() && 0 <= j < more.len() && i != j implies more[i] != more[j] by {
            if i == vars.len() {
                assert(vars.contains(vars[j]));
            } else if j == vars.len() {
                assert(vars.contains(vars[i]));
            }
        }
    }
}

/// Whether every inlined call that a subprogram holds has an inline depth
/// above zero.
pub open spec fn inlined_below(m: MethodView) -> bool {
    forall|k: int|
        0 <= k < m.method_type->inlined_methods.len() ==> (
        #[trigger] m.method_type->inlined_methods[k]).method_type->inline_depth > 0
}

/// The inlined calls that the enclosing subprogram holds.
pub open spec fn attached(t: TraversalView) -> Seq<MethodView> {
    match t.subprogram {
        Some(m) => if m.method_type is SubprogramType {
            m.method_type->inlined_methods
        } else {
            Seq::empty()
        },
        None => Seq::empty(),
    }
}

/// Whether the enclosing subprogram of `after` holds the inlined calls that
/// it held in `before`, and behind them only inlined calls with an inline
/// depth above `level`.
pub open spec fn deepens(before: TraversalView, after: TraversalView, level: u64) -> bool {
    &&& attached(before).len() <= attached(after).len()
    &&& forall|k: int|
        0 <= k < attached(before).len() ==> #[trigger] attached(after)[k] == attached(before)[k]
    &&& forall|k: int|
        attached(before).len() <= k < attached(after).len() ==> (#[trigger] attached(
            after,
        )[k]).method_type is InlinedMethodType && attached(after)[k].method_type->inline_depth
            > level
}

/// Whether the walk stands in `after` where it stood in `before`: the
/// enclosing inlined call is of the same kind, at the same call site and as
/// deep; there is an enclosing subprogram in the one exactly when there is
/// in the other; and below an enclosing subprogram no inlined call was
/// found to be without one.
pub open spec fn same_call(before: TraversalView, after: TraversalView) -> bool {
    &&& match before.inlined {
        Some(m) => after.inlined is Some && after.inlined->0.method_type == m.method_type,
        None => after.inlined is None,
    }
    &&& match before.subprogram {
        Some(m) => after.subprogram is Some && (m.method_type is SubprogramType
            ==> after.subprogram->0.method_type is SubprogramType && after.orphaned
            == before.orphaned),
        None => after.subprogram is None,
    }
}

fn record(state: Traversal, error: ParsingError) -> (r: Traversal)
    ensures
        r@ == with_error(state@, error@),
        r.subprogram == state.subprogram,
        r.inlined == state.inlined,
{
    let Traversal { methods, mut errors, orphaned, subprogram, inlined } = state;
    let ghost before = errors@;
    match error {
        ParsingError::Failure(message) => {
            errors.push(message);
        },
    }
    proof {
        assert(text_views(errors@) =~= text_views(before).push(error@));
    }
    Traversal { methods, errors, orphaned, subprogram, inlined }
}

fn put_variable(method: Method, v: Variable) -> (r: Method)
    ensures
        r@ == with_variable_in(method@, v@),
        distinct_variables(method@) ==> distinct_variables(r@),
{
    proof {
        if distinct_variables(method@) {
            lemma_with_variable_distinct(method@.variables, v@);
        }
    }
    let Method { method_type, method_name, mut variables, decl_range, address_ranges } = method;
    crate::types::data_structures::insert_variable(&mut variables, v);
    Method { method_type, method_name, variables, decl_range, address_ranges }
}

fn put_call(method: Method, call: Method) -> (r: Method)
    requires
        method.method_type is SubprogramType,
    ensures
        r@ == with_inlined(method@, call@),
{
    proof {
        lemma_inlined_views(method);
    }
    let Method { method_type, method_name, variables, decl_range, address_ranges } = method;
    match method_type {
        MethodType::SubprogramType { mut inlined_methods, linkage_name } => {
            let ghost before = inlined_methods@;
            inlined_methods.push(call);
            let r = Method {
                method_type: MethodType::SubprogramType { inlined_methods, linkage_name },
                method_name,
                variables,
                decl_range,
                address_ranges,
            };
            proof {
                lemma_inlined_views(r);
                assert(method_views(before.push(call)) =~= method_views(before).push(call@));
            }
            r
        },
        other => Method { method_type: other, method_name, variables, decl_range, address_ranges },
    }
}

fn attach_variable(state: Traversal, v: Variable, entry: &DebugEntry) -> (r: Traversal)
    ensures
        r@ == with_attached_variable(state@, v@, entry.offset),
{
    let Traversal { methods, errors, orphaned, subprogram, inlined } = state;
    match inlined {
        Some(m) => Traversal {
            methods,
            errors,
            orphaned,
            subprogram,
            inlined: Some(put_variable(m, v)),
        },
        None => match subprogram {
            Some(m) => Traversal {
                methods,
                errors,
                orphaned,
                subprogram: Some(put_variable(m, v)),
                inlined: None,
            },
            None => record(
                Traversal { methods, errors, orphaned, subprogram: None, inlined: None },
                crate::die_extensions::error("Found a variable outside of any method", entry),
            ),
        },
    }
}

fn variable_error(unit: &UnitData, entry: &DebugEntry, state: &Traversal, reason: &ParsingError) -> (e:
    ParsingError)
    ensures
        e@ == variable_error_text(*unit, *entry, state@, reason@),
{
    let name = match entry.try_get_name(unit) {
        Ok(name) => name,
        Err(_) => String::from_str("<UNKNOWN>"),
    };
    let mut text = String::from_str("Failed to parse variable ");
    text.append(debug_quoted(name.as_str()).as_str());
    text.append(" in inlined method. ");
    let quoted_method = match &state.inlined {
        Some(m) => debug_quoted(m.method_name.as_str()),
        None => match &state.subprogram {
            Some(m) => debug_quoted(m.method_name.as_str()),
            None => debug_quoted(""),
        },
    };
    proof {
        reveal_strlit("");
        assert(""@ =~= Seq::<char>::empty());
    }
    text.append(quoted_method.as_str());
    text.append(", Some(Failure(");
    match reason {
        ParsingError::Failure(message) => {
            text.append(debug_quoted(message.as_str()).as_str());
        },
    }
    text.append("))");
    ParsingError::Failure(text)
}

fn visit_child(
    unit: &UnitData,
    extract: bool,
    demangle: bool,
    entry: &DebugEntry,
    parent_ranges: &Vec<AddressRange>,
    level: u64,
    fuel: u64,
    state: Traversal,
) -> (r: Traversal)
    requires
        level + fuel <= u64::MAX,
    ensures
        r@ == visited(
            *unit,
            extract,
            demangle,
            *entry,
            parent_ranges@,
            level,
            fuel as nat,
            state@,
        ),
        well_nested(state@) ==> well_nested(r@),
        deepens(state@, r@, level),
        same_call(state@, r@),
    decreases fuel, 0nat, 0nat,
{
    let ranges = get_address_ranges_or_take_parent(entry, unit, parent_ranges);
    if entry.tag == DW_TAG_VARIABLE || entry.tag == DW_TAG_FORMAL_PARAMETER {
        if !extract {
            return state;
        }
        match Variable::create(entry, &ranges, unit) {
            Ok(v) => attach_variable(state, v, entry),
            Err(reason) => {
                let e = variable_error(unit, entry, &state, &reason);
                record(state, e)
            },
        }
    } else if fuel == 0 {
        record(state, crate::die_extensions::error("The entries are nested too deeply", entry))
    } else if entry.tag == DW_TAG_SUBPROGRAM {
        match Method::create(entry, unit, level, demangle) {
            Ok(method) => {
                let Traversal { methods, errors, orphaned, subprogram, inlined } = state;
                let inner = traverse_and_flatten_rec(
                    unit,
                    extract,
                    demangle,
                    entry,
                    &ranges,
                    level,
                    fuel - 1,
                    Traversal { methods, errors, orphaned, subprogram: Some(method), inlined: None },
                );
                let Traversal {
                    methods: mut methods,
                    errors,
                    orphaned,
                    subprogram: finished,
                    inlined: _,
                } = inner;
                let ghost before = methods@;
                if let Some(m) = finished {
                    methods.push(m);
                    proof {
                        assert(method_views(methods@) =~= method_views(before).push(m@));
                    }
                }
                Traversal { methods, errors, orphaned, subprogram, inlined }
            },
            Err(_) => state,
        }
    } else if entry.tag == DW_TAG_INLINED_SUBROUTINE {
        match Method::create(entry, unit, level + 1, demangle) {
            Ok(method) => {
                let Traversal { methods, errors, orphaned, subprogram, inlined } = state;
                let inner = traverse_and_flatten_rec(
                    unit,
                    extract,
                    demangle,
                    entry,
                    &ranges,
                    level + 1,
                    fuel - 1,
                    Traversal { methods, errors, orphaned, subprogram, inlined: Some(method) },
                );
                let Traversal { methods, errors, orphaned, subprogram, inlined: finished } = inner;
                match finished {
                    None => Traversal { methods, errors, orphaned, subprogram, inlined },
                    Some(call) => match subprogram {
                        Some(m) => {
                            if let MethodType::SubprogramType { .. } = &m.method_type {
                                Traversal {
                                    methods,
                                    errors,
                                    orphaned,
                                    subprogram: Some(put_call(m, call)),
                                    inlined,
                                }
                            } else {
                                Traversal {
                                    methods,
                                    errors,
                                    orphaned: true,
                                    subprogram: Some(m),
                                    inlined,
                                }
                            }
                        },
                        None => Traversal {
                            methods,
                            errors,
                            orphaned: true,
                            subprogram: None,
                            inlined,
                        },
                    },
                }
            },
            Err(_) => state,
        }
    } else {
        traverse_and_flatten_rec(unit, extract, demangle, entry, &ranges, level, fuel - 1, state)
    }
}

/// Visits everything below an entry: first what is below its abstract
/// origin, then its own children. `level` is the number of inlined calls
/// that enclose the entry, and `fuel` how much deeper the walk may go.
pub fn traverse_and_flatten_rec(
    unit: &UnitData,
    extract: bool,
    demangle: bool,
    node: &DebugEntry,
    parent_ranges: &Vec<AddressRange>,
    level: u64,
    fuel: u64,
    state: Traversal,
) -> (r: Traversal)
    requires
        level + fuel <= u64::MAX,
    ensures
        r@ == traversed(
            *unit,
            extract,
            demangle,
            *node,
            parent_ranges@,
            level,
            fuel as nat,
            state@,
        ),
        well_nested(state@) ==> well_nested(r@),
        deepens(state@, r@, level),
        same_call(state@, r@),
    decreases fuel, 2nat, 0nat,
{
    let ghost before = state@;
    let after_origin = match node.attr_reference(crate::debug_entry::DW_AT_ABSTRACT_ORIGIN) {
        Some(offset) => match unit.find(offset) {
            Some(index) => {
                if fuel == 0 {
                    record(
                        state,
                        crate::die_extensions::error("The entries are nested too deeply", node),
                    )
                } else {
                    traverse_and_flatten_rec(
                        unit,
                        extract,
                        demangle,
                        &unit.entries[index],
                        parent_ranges,
                        level,
                        fuel - 1,
                        state,
                    )
                }
            },
            None => record(
                state,
                crate::die_extensions::error(
                    "Could not find the entry of DW_AT_abstract_origin",
                    node,
                ),
            ),
        },
        None => state,
    };
    let ghost middle = after_origin@;
    proof {
        lemma_deepens_on(before, middle, middle, level);
    }
    let mut state = after_origin;
    let mut i: usize = 0;
    while i < node.children.len()
        invariant
            i <= node.children.len(),
            level + fuel <= u64::MAX,
            visited_children(
                *unit,
                extract,
                demangle,
                node.children@,
                i as int,
                parent_ranges@,
                level,
                fuel as nat,
                state@,
            ) == visited_children(
                *unit,
                extract,
                demangle,
                node.children@,
                0,
                parent_ranges@,
                level,
                fuel as nat,
                middle,
            ),
            well_nested(before) ==> well_nested(state@),
            deepens(before, state@, level),
            same_call(before, state@),
        decreases node.children.len() - i,
    {
        let index = node.children[i];
        if index < unit.entries.len() {
            let ghost previous = state@;
            state =
            visit_child(
                unit,
                extract,
                demangle,
                &unit.entries[index],
                parent_ranges,
                level,
                fuel,
                state,
            );
            proof {
                lemma_deepens_on(before, previous, state@, level);
            }
        }
        i += 1;
    }
    state
}

/// What one part of a walk adds and then another, the two add together.
pub proof fn lemma_deepens_on(a: TraversalView, b: TraversalView, c: TraversalView, level: u64)
    requires
        deepens(a, b, level),
        deepens(b, c, level),
    ensures
        deepens(a, c, level),
{
    assert forall|k: int| 0 <= k < attached(a).len() implies #[trigger] attached(c)[k] == attached(
        a,
    )[k] by {
        assert(attached(b)[k] == attached(a)[k]);
    }
    assert forall|k: int| attached(a).len() <= k < attached(c).len() implies (#[trigger] attached(
        c,
    )[k]).method_type is InlinedMethodType && attached(c)[k].method_type->inline_depth
        > level by {
        if k < attached(b).len() {
            assert(attached(c)[k] == attached(b)[k]);
        }
    }
}


/// The value of a unit after the walk over its entries: the address ranges
/// of the root, the subprograms that the walk finished behind the methods
/// that were there, and its messages behind those that were there. A unit
/// without entries is an error, and so is an inlined call outside of any
/// subprogram.
pub open spec fn unit_walk(
    unit: UnitData,
    extract: bool,
    demangle: bool,
    before: CompilationUnitView,
) -> Result<CompilationUnitView, Seq<char>> {
    if unit.entries@.len() == 0 {
        Err("Could not find the root entry of the unit"@)
    } else {
        let root = unit.entries@[0];
        let ranges = ranges_or_parent(unit, root, Seq::empty());
        let walk = traversed(
            unit,
            extract,
            demangle,
            root,
            ranges,
            0,
            MAX_TREE_DEPTH as nat,
            TraversalView {
                methods: before.methods,
                errors: before.parsing_errors,
                orphaned: false,
                subprogram: None,
                inlined: None,
            },
        );
        if walk.orphaned {
            Err(
                "Encountered an inlined method, but the top level element should always be a subprogram."@,
            )
        } else {
            Ok(
                CompilationUnitView {
                    methods: walk.methods,
                    parsing_errors: walk.errors,
                    ranges,
                    ..before
                },
            )
        }
    }
}

/// The value of a unit after a walk that failed: as before where the unit
/// has no entries; else with what the walk had gathered.
pub open spec fn failed_walk(
    unit: UnitData,
    extract: bool,
    demangle: bool,
    before: CompilationUnitView,
) -> CompilationUnitView {
    if unit.entries@.len() == 0 {
        before
    } else {
        let root = unit.entries@[0];
        let ranges = ranges_or_parent(unit, root, Seq::empty());
        let walk = traversed(
            unit,
            extract,
            demangle,
            root,
            ranges,
            0,
            MAX_TREE_DEPTH as nat,
            TraversalView {
                methods: before.methods,
                errors: before.parsing_errors,
                orphaned: false,
                subprogram: None,
                inlined: None,
            },
        );
        CompilationUnitView { methods: walk.methods, parsing_errors: walk.errors, ranges, ..before }
    }
}

/// The value of a unit after parsing it failed: as before where the line
/// program could not be read; else with the table of source lines and with
/// what the walk had gathered.
pub open spec fn failed_report(
    unit: UnitData,
    extract: bool,
    demangle: bool,
    before: CompilationUnitView,
) -> CompilationUnitView {
    match line_table(unit) {
        Err(_) => before,
        Ok(lines) => failed_walk(
            unit,
            extract,
            demangle,
            CompilationUnitView { line_number_info: lines, ..before },
        ),
    }
}

/// The value of a unit after it was parsed: its table of source lines, what
/// the walk over its entries gives, and every method reported as a
/// subprogram.
pub open spec fn unit_report(
    unit: UnitData,
    extract: bool,
    demangle: bool,
    before: CompilationUnitView,
) -> Result<CompilationUnitView, Seq<char>> {
    match line_table(unit) {
        Err(m) => Err(m),
        Ok(lines) => match unit_walk(
            unit,
            extract,
            demangle,
            CompilationUnitView { line_number_info: lines, ..before },
        ) {
            Err(m) => Err(m),
            Ok(walked) => Ok(
                CompilationUnitView {
                    subprograms: walked.subprograms + translated_all(walked.methods),
                    ..walked
                },
            ),
        },
    }
}

/// Whether every method of a unit can be reported, and every inlined call
/// in it has an inline depth above zero.
pub open spec fn reportable(methods: Seq<MethodView>) -> bool {
    forall|i: int|
        0 <= i < methods.len() ==> translatable(#[trigger] methods[i]) && inlined_below(
            methods[i],
        ) && distinct_variables(methods[i])
}

impl<'a> CompilationUnit<'a> {
    /// A unit of which nothing is known yet.
    pub fn new(options: &'a ParsingOptions) -> (unit: Self)
        ensures
            unit.options == options,
            unit.methods@.len() == 0,
            unit@ == (CompilationUnitView {
                methods: Seq::empty(),
                subprograms: Seq::empty(),
                ranges: Seq::empty(),
                line_number_info: Seq::empty(),
                parsing_errors: Seq::empty(),
            }),
    {
        let unit = CompilationUnit {
            options,
            methods: Vec::new(),
            subprograms: Vec::new(),
            ranges: Vec::new(),
            line_number_info: Vec::new(),
            parsing_errors: Vec::new(),
        };
        proof {
            assert(unit@.methods =~= Seq::empty());
            assert(unit@.subprograms =~= Seq::empty());
            assert(unit@.line_number_info =~= Seq::empty());
            assert(unit@.parsing_errors =~= Seq::empty());
        }
        unit
    }

    /// Walks over the entries of the unit from its root and gathers the
    /// subprograms with their inlined calls and variables.
    pub fn traverse_and_flatten(&mut self, unit: &UnitData) -> (r: Result<(), ParsingError>)
        ensures
            match r {
                Ok(_) => unit_walk(
                    *unit,
                    old(self).options.extract_variables,
                    old(self).options.demangle,
                    old(self)@,
                ) == Ok::<CompilationUnitView, Seq<char>>(final(self)@),
                Err(e) => unit_walk(
                    *unit,
                    old(self).options.extract_variables,
                    old(self).options.demangle,
                    old(self)@,
                ) == Err::<CompilationUnitView, Seq<char>>(e@) && final(self)@ == failed_walk(
                    *unit,
                    old(self).options.extract_variables,
                    old(self).options.demangle,
                    old(self)@,
                ),
            },
            final(self).options == old(self).options,
            reportable(old(self)@.methods) ==> reportable(final(self)@.methods),
    {
        if unit.entries.len() == 0 {
            return Err(
                ParsingError::Failure(String::from_str("Could not find the root entry of the unit")),
            );
        }
        let root = &unit.entries[0];
        let none: Vec<AddressRange> = Vec::new();
        let ranges = get_address_ranges_or_take_parent(root, unit, &none);
        let mut methods: Vec<Method> = Vec::new();
        let mut errors: Vec<String> = Vec::new();
        std::mem::swap(&mut self.methods, &mut methods);
        std::mem::swap(&mut self.parsing_errors, &mut errors);
        let walk = traverse_and_flatten_rec(
            unit,
            self.options.extract_variables,
            self.options.demangle,
            root,
            &ranges,
            0,
            MAX_TREE_DEPTH,
            Traversal { methods, errors, orphaned: false, subprogram: None, inlined: None },
        );
        let Traversal { methods, errors, orphaned, subprogram: _, inlined: _ } = walk;
        self.methods = methods;
        self.parsing_errors = errors;
        self.ranges = ranges;
        if orphaned {
            Err(
                ParsingError::Failure(
                    String::from_str(
                        "Encountered an inlined method, but the top level element should always be a subprogram.",
                    ),
                ),
            )
        } else {
            Ok(())
        }
    }

    /// Parses the unit: the table of source lines, then the subprograms with
    /// their inlined calls and variables, and reports every method as a
    /// subprogram.
    pub fn parse_compilation_unit(&mut self, unit: &UnitData) -> (r: Result<(), ParsingError>)
        requires
            forall|i: int|
                0 <= i < old(self).methods@.len() ==> translatable(#[trigger] old(self).methods@[i]@)
                    && inlined_below(old(self).methods@[i]@) && distinct_variables(
                    old(self).methods@[i]@,
                ),
        ensures
            match r {
                Ok(_) => unit_report(
                    *unit,
                    old(self).options.extract_variables,
                    old(self).options.demangle,
                    old(self)@,
                ) == Ok::<CompilationUnitView, Seq<char>>(final(self)@),
                Err(e) => unit_report(
                    *unit,
                    old(self).options.extract_variables,
                    old(self).options.demangle,
                    old(self)@,
                ) == Err::<CompilationUnitView, Seq<char>>(e@) && final(self)@ == failed_report(
                    *unit,
                    old(self).options.extract_variables,
                    old(self).options.demangle,
                    old(self)@,
                ),
            },
            final(self).options == old(self).options,
            r is Ok ==> reportable(final(self)@.methods),
    {
        match self.parse_line_number_program(unit) {
            Ok(_) => {},
            Err(e) => { return Err(e); },
        }
        assert(reportable(self@.methods)) by {
            assert(self.methods == old(self).methods);
            assert forall|i: int| 0 <= i < self@.methods.len() implies translatable(
                #[trigger] self@.methods[i],
            ) && inlined_below(self@.methods[i]) && distinct_variables(self@.methods[i]) by {
                assert(self@.methods[i] == old(self).methods@[i]@);
            }
        }
        match self.traverse_and_flatten(unit) {
            Ok(_) => {},
            Err(e) => { return Err(e); },
        }
        assert forall|i: int| 0 <= i < self.methods@.len() implies translatable(
            #[trigger] self.methods@[i]@,
        ) by {
            assert(self@.methods[i] == self.methods@[i]@);
        }
        self.translate_methods();
        Ok(())
    }
}

/// What a walk below an entry does to the inlined calls of the enclosing
/// subprogram: it keeps those that are there and puts behind them only
/// inlined calls with an inline depth above `level`, the number of inlined
/// calls around the entry. So an inlined call always has a depth above zero,
/// and a call inlined into an inlined call a greater depth than that one.
/// The walk leaves the enclosing inlined call at its depth, and leaves what
/// it holds fit to be reported.
pub proof fn lemma_walk_deepens(
    unit: UnitData,
    extract: bool,
    demangle: bool,
    node: DebugEntry,
    parent_ranges: Seq<AddressRange>,
    level: u64,
    fuel: nat,
    t: TraversalView,
)
    requires
        level + fuel <= u64::MAX,
    ensures
        deepens(
            t,
            traversed(unit, extract, demangle, node, parent_ranges, level, fuel, t),
            level,
        ),
        same_call(t, traversed(unit, extract, demangle, node, parent_ranges, level, fuel, t)),
        well_nested(t) ==> well_nested(
            traversed(unit, extract, demangle, node, parent_ranges, level, fuel, t),
        ),
    decreases fuel, 2nat, 0nat,
{
    let after_origin = match node.reference(crate::debug_entry::DW_AT_ABSTRACT_ORIGIN) {
        Some(offset) => match unit.position(offset) {
            Some(index) => if fuel == 0 {
                with_error(t, too_deep_text(node.offset))
            } else if 0 <= index < unit.entries@.len() {
                lemma_walk_deepens(
                    unit,
                    extract,
                    demangle,
                    unit.entries@[index],
                    parent_ranges,
                    level,
                    (fuel - 1) as nat,
                    t,
                );
                traversed(
                    unit,
                    extract,
                    demangle,
                    unit.entries@[index],
                    parent_ranges,
                    level,
                    (fuel - 1) as nat,
                    t,
                )
            } else {
                t
            },
            None => with_error(t, no_origin_text(node.offset)),
        },
        None => t,
    };
    lemma_children_deepen(
        unit,
        extract,
        demangle,
        node.children@,
        0,
        parent_ranges,
        level,
        fuel,
        after_origin,
    );
    let r = traversed(unit, extract, demangle, node, parent_ranges, level, fuel, t);
    lemma_deepens_on(t, after_origin, r, level);
}

proof fn lemma_children_deepen(
    unit: UnitData,
    extract: bool,
    demangle: bool,
    children: Seq<usize>,
    from: int,
    parent_ranges: Seq<AddressRange>,
    level: u64,
    fuel: nat,
    t: TraversalView,
)
    requires
        level + fuel <= u64::MAX,
    ensures
        deepens(
            t,
            visited_children(
                unit,
                extract,
                demangle,
                children,
                from,
                parent_ranges,
                level,
                fuel,
                t,
            ),
            level,
        ),
        same_call(
            t,
            visited_children(
                unit,
                extract,
                demangle,
                children,
                from,
                parent_ranges,
                level,
                fuel,
                t,
            ),
        ),
        well_nested(t) ==> well_nested(
            visited_children(
                unit,
                extract,
                demangle,
                children,
                from,
                parent_ranges,
                level,
                fuel,
                t,
            ),
        ),
    decreases fuel, 1nat, children.len() - from,
{
    if 0 <= from < children.len() {
        let after = if children[from] < unit.entries@.len() {
            lemma_child_deepens(
                unit,
                extract,
                demangle,
                unit.entries@[children[from] as int],
                parent_ranges,
                level,
                fuel,
                t,
            );
            visited(
                unit,
                extract,
                demangle,
                unit.entries@[children[from] as int],
                parent_ranges,
                level,
                fuel,
                t,
            )
        } else {
            t
        };
        lemma_children_deepen(
            unit,
            extract,
            demangle,
            children,
            from + 1,
            parent_ranges,
            level,
            fuel,
            after,
        );
        let r = visited_children(
            unit,
            extract,
            demangle,
            children,
            from,
            parent_ranges,
            level,
            fuel,
            t,
        );
        lemma_deepens_on(t, after, r, level);
    }
}

proof fn lemma_child_deepens(
    unit: UnitData,
    extract: bool,
    demangle: bool,
    entry: DebugEntry,
    parent_ranges: Seq<AddressRange>,
    level: u64,
    fuel: nat,
    t: TraversalView,
)
    requires
        level + fuel <= u64::MAX,
    ensures
        deepens(
            t,
            visited(unit, extract, demangle, entry, parent_ranges, level, fuel, t),
            level,
        ),
        same_call(t, visited(unit, extract, demangle, entry, parent_ranges, level, fuel, t)),
        well_nested(t) ==> well_nested(
            visited(unit, extract, demangle, entry, parent_ranges, level, fuel, t),
        ),
    decreases fuel, 0nat, 0nat,
{
    let ranges = ranges_or_parent(unit, entry, parent_ranges);
    if entry.tag == DW_TAG_VARIABLE || entry.tag == DW_TAG_FORMAL_PARAMETER {
        if let Ok(v) = created_variable(unit, entry, ranges) {
            if let Some(m) = t.inlined {
                if distinct_variables(m) {
                    lemma_with_variable_distinct(m.variables, v);
                }
            } else if let Some(m) = t.subprogram {
                if distinct_variables(m) {
                    lemma_with_variable_distinct(m.variables, v);
                }
            }
        }
    } else if fuel == 0 {
    } else if entry.tag == DW_TAG_SUBPROGRAM {
        if let Ok(m) = created_method(unit, entry, level, demangle) {
            lemma_walk_deepens(
                unit,
                extract,
                demangle,
                entry,
                ranges,
                level,
                (fuel - 1) as nat,
                TraversalView { subprogram: Some(m), inlined: None, ..t },
            );
        }
    } else if entry.tag == DW_TAG_INLINED_SUBROUTINE {
        if let Ok(m) = created_method(unit, entry, (level + 1) as u64, demangle) {
            lemma_walk_deepens(
                unit,
                extract,
                demangle,
                entry,
                ranges,
                (level + 1) as u64,
                (fuel - 1) as nat,
                TraversalView { inlined: Some(m), ..t },
            );
        }
    } else {
        lemma_walk_deepens(unit, extract, demangle, entry, ranges, level, (fuel - 1) as nat, t);
    }
}

/// An inlined call below a subprogram is attached to it exactly once: as the
/// last of the calls that the visit of its entry attaches, one level below
/// the entry, behind every call that is inlined into it; and each of those
/// is deeper than it.
pub proof fn lemma_inlined_call_attached(
    unit: UnitData,
    extract: bool,
    demangle: bool,
    entry: DebugEntry,
    parent_ranges: Seq<AddressRange>,
    level: u64,
    fuel: nat,
    t: TraversalView,
)
    requires
        level + fuel <= u64::MAX,
        fuel > 0,
        entry.tag == DW_TAG_INLINED_SUBROUTINE,
        created_method(unit, entry, (level + 1) as u64, demangle) is Ok,
        t.subprogram matches Some(m) && m.method_type is SubprogramType,
    ensures
        ({
            let call = created_method(unit, entry, (level + 1) as u64, demangle)->Ok_0;
            let inner = traversed(
                unit,
                extract,
                demangle,
                entry,
                ranges_or_parent(unit, entry, parent_ranges),
                (level + 1) as u64,
                (fuel - 1) as nat,
                TraversalView { inlined: Some(call), ..t },
            );
            let after = visited(unit, extract, demangle, entry, parent_ranges, level, fuel, t);
            &&& inner.inlined is Some
            &&& attached(after) == attached(inner).push(inner.inlined->0)
            &&& attached(after).last().method_type == call.method_type
            &&& attached(after).last().method_type->inline_depth == level + 1
            &&& attached(t).len() <= attached(inner).len()
            &&& forall|k: int|
                0 <= k < attached(t).len() ==> #[trigger] attached(after)[k] == attached(t)[k]
            &&& forall|k: int|
                attached(t).len() <= k < attached(inner).len() ==> (#[trigger] attached(
                    after,
                )[k]).method_type->inline_depth > attached(
                    after,
                ).last().method_type->inline_depth
            &&& after.inlined == t.inlined
            &&& after.orphaned == t.orphaned
        }),
{
    let call = created_method(unit, entry, (level + 1) as u64, demangle)->Ok_0;
    let start = TraversalView { inlined: Some(call), ..t };
    lemma_walk_deepens(
        unit,
        extract,
        demangle,
        entry,
        ranges_or_parent(unit, entry, parent_ranges),
        (level + 1) as u64,
        (fuel - 1) as nat,
        start,
    );
    let inner = traversed(
        unit,
        extract,
        demangle,
        entry,
        ranges_or_parent(unit, entry, parent_ranges),
        (level + 1) as u64,
        (fuel - 1) as nat,
        start,
    );
    let after = visited(unit, extract, demangle, entry, parent_ranges, level, fuel, t);
    assert(attached(start) == attached(t));
    assert(after == with_attached_call(inner, t.inlined));
    assert forall|k: int| 0 <= k < attached(inner).len() implies #[trigger] attached(after)[k]
        == attached(inner)[k] by {}
}

/// Whether the walk below the abstract origin of an entry adds nothing: the
/// entry names none, or one that has no children and names none itself.
pub open spec fn quiet_origin(unit: UnitData, entry: DebugEntry) -> bool {
    match entry.reference(crate::debug_entry::DW_AT_ABSTRACT_ORIGIN) {
        None => true,
        Some(offset) => match unit.position(offset) {
            Some(index) => 0 <= index < unit.entries@.len() && unit.entries@[index].children@.len()
                == 0 && unit.entries@[index].reference(crate::debug_entry::DW_AT_ABSTRACT_ORIGIN)
                is None,
            None => false,
        },
    }
}

proof fn lemma_quiet_origin(
    unit: UnitData,
    extract: bool,
    demangle: bool,
    node: DebugEntry,
    parent_ranges: Seq<AddressRange>,
    level: u64,
    fuel: nat,
    t: TraversalView,
)
    requires
        quiet_origin(unit, node),
        fuel > 0,
    ensures
        traversed(unit, extract, demangle, node, parent_ranges, level, fuel, t)
            == visited_children(
            unit,
            extract,
            demangle,
            node.children@,
            0,
            parent_ranges,
            level,
            fuel,
            t,
        ),
{
    if let Some(offset) = node.reference(crate::debug_entry::DW_AT_ABSTRACT_ORIGIN) {
        let index = unit.position(offset)->0;
        let origin = unit.entries@[index];
        assert(visited_children(
            unit,
            extract,
            demangle,
            origin.children@,
            0,
            parent_ranges,
            level,
            (fuel - 1) as nat,
            t,
        ) == t);
        assert(traversed(
            unit,
            extract,
            demangle,
            origin,
            parent_ranges,
            level,
            (fuel - 1) as nat,
            t,
        ) == t);
    }
}

proof fn lemma_only_child(
    unit: UnitData,
    extract: bool,
    demangle: bool,
    children: Seq<usize>,
    parent_ranges: Seq<AddressRange>,
    level: u64,
    fuel: nat,
    t: TraversalView,
)
    requires
        children.len() == 1,
        children[0] < unit.entries@.len(),
    ensures
        visited_children(unit, extract, demangle, children, 0, parent_ranges, level, fuel, t)
            == visited(
            unit,
            extract,
            demangle,
            unit.entries@[children[0] as int],
            parent_ranges,
            level,
            fuel,
            t,
        ),
{
    let after = visited(
        unit,
        extract,
        demangle,
        unit.entries@[children[0] as int],
        parent_ranges,
        level,
        fuel,
        t,
    );
    assert(visited_children(
        unit,
        extract,
        demangle,
        children,
        1,
        parent_ranges,
        level,
        fuel,
        after,
    ) == after);
}

/// A chain of inlined calls, walked from the root of its unit: where the
/// root holds one subprogram, that holds one inlined call, and that holds
/// one more with nothing in it, the walk finishes the one subprogram with
/// both calls attached to it, each once, the inner one first; the outer one
/// at depth one and the inner one at depth two.
pub proof fn lemma_inline_chain(
    unit: UnitData,
    extract: bool,
    demangle: bool,
    before: CompilationUnitView,
    a: usize,
    b: usize,
    c: usize,
)
    requires
        unit.entries@.len() > 0,
        a < unit.entries@.len(),
        b < unit.entries@.len(),
        c < unit.entries@.len(),
        quiet_origin(unit, unit.entries@[0]),
        unit.entries@[0].children@ == seq![a],
        unit.entries@[a as int].tag == DW_TAG_SUBPROGRAM,
        quiet_origin(unit, unit.entries@[a as int]),
        unit.entries@[a as int].children@ == seq![b],
        created_method(unit, unit.entries@[a as int], 0, demangle) is Ok,
        unit.entries@[b as int].tag == DW_TAG_INLINED_SUBROUTINE,
        quiet_origin(unit, unit.entries@[b as int]),
        unit.entries@[b as int].children@ == seq![c],
        created_method(unit, unit.entries@[b as int], 1, demangle) is Ok,
        unit.entries@[c as int].tag == DW_TAG_INLINED_SUBROUTINE,
        quiet_origin(unit, unit.entries@[c as int]),
        unit.entries@[c as int].children@.len() == 0,
        created_method(unit, unit.entries@[c as int], 2, demangle) is Ok,
    ensures
        ({
            let outer = created_method(unit, unit.entries@[b as int], 1, demangle)->Ok_0;
            let inner = created_method(unit, unit.entries@[c as int], 2, demangle)->Ok_0;
            let subprogram = created_method(unit, unit.entries@[a as int], 0, demangle)->Ok_0;
            &&& unit_walk(unit, extract, demangle, before) == Ok::<
                CompilationUnitView,
                Seq<char>,
            >(
                CompilationUnitView {
                    methods: before.methods.push(
                        with_inlined(with_inlined(subprogram, inner), outer),
                    ),
                    ranges: ranges_or_parent(unit, unit.entries@[0], Seq::empty()),
                    ..before
                },
            )
            &&& with_inlined(
                with_inlined(subprogram, inner),
                outer,
            ).method_type->inlined_methods == seq![inner, outer]
            &&& outer.method_type->inline_depth == 1
            &&& inner.method_type->inline_depth == 2
        }),
{
    let root = unit.entries@[0];
    let ea = unit.entries@[a as int];
    let eb = unit.entries@[b as int];
    let ec = unit.entries@[c as int];
    let subprogram = created_method(unit, ea, 0, demangle)->Ok_0;
    let outer = created_method(unit, eb, 1, demangle)->Ok_0;
    let inner = created_method(unit, ec, 2, demangle)->Ok_0;
    let fuel = MAX_TREE_DEPTH as nat;
    let r0 = ranges_or_parent(unit, root, Seq::empty());
    let ra = ranges_or_parent(unit, ea, r0);
    let rb = ranges_or_parent(unit, eb, ra);
    let rc = ranges_or_parent(unit, ec, rb);
    let t0 = TraversalView {
        methods: before.methods,
        errors: before.parsing_errors,
        orphaned: false,
        subprogram: None,
        inlined: None,
    };
    let ta = TraversalView { subprogram: Some(subprogram), inlined: None, ..t0 };
    let tb = TraversalView { inlined: Some(outer), ..ta };
    let tc = TraversalView { inlined: Some(inner), ..tb };
    // below the innermost call there is nothing
    lemma_quiet_origin(unit, extract, demangle, ec, rc, 2, (fuel - 3) as nat, tc);
    assert(traversed(unit, extract, demangle, ec, rc, 2, (fuel - 3) as nat, tc) == tc);
    let after_c = with_attached_call(tc, tb.inlined);
    assert(visited(unit, extract, demangle, ec, rb, 1, (fuel - 2) as nat, tb) == after_c);
    // below the outer call there is the inner one
    lemma_quiet_origin(unit, extract, demangle, eb, rb, 1, (fuel - 2) as nat, tb);
    lemma_only_child(unit, extract, demangle, eb.children@, rb, 1, (fuel - 2) as nat, tb);
    assert(traversed(unit, extract, demangle, eb, rb, 1, (fuel - 2) as nat, tb) == after_c);
    let after_b = with_attached_call(after_c, ta.inlined);
    assert(visited(unit, extract, demangle, eb, ra, 0, (fuel - 1) as nat, ta) == after_b);
    // below the subprogram there is the outer call
    lemma_quiet_origin(unit, extract, demangle, ea, ra, 0, (fuel - 1) as nat, ta);
    lemma_only_child(unit, extract, demangle, ea.children@, ra, 0, (fuel - 1) as nat, ta);
    assert(traversed(unit, extract, demangle, ea, ra, 0, (fuel - 1) as nat, ta) == after_b);
    let after_a = with_finished_subprogram(after_b, t0);
    assert(visited(unit, extract, demangle, ea, r0, 0, fuel, t0) == after_a);
    // below the root there is the subprogram
    lemma_quiet_origin(unit, extract, demangle, root, r0, 0, fuel, t0);
    lemma_only_child(unit, extract, demangle, root.children@, r0, 0, fuel, t0);
    assert(traversed(unit, extract, demangle, root, r0, 0, fuel, t0) == after_a);
    assert(with_inlined(with_inlined(subprogram, inner), outer).method_type->inlined_methods
        =~= seq![inner, outer]);
}

} // verus!
