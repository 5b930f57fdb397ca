//! Methods, variables, source positions and the units that own them.

use vstd::prelude::*;
use crate::types::operation_types::{
    clone_operations, operation_views, same_operations, OperationJson, OperationView,
};
use crate::types::rust_type::{RustType, RustTypeId};
use crate::ParsingOptions;

verus! {

/// A range of code addresses. Both ends zero means that no range is given.
#[derive(Debug, Clone, Copy, PartialEq, Eq, Hash, Structural)]
pub struct AddressRange {
    pub start: u64,
    pub end: u64,
}

impl AddressRange {
    /// Whether the range ends where it starts or behind it, as a range that
    /// was read well does. The range that stands for no range does so too.
    pub open spec fn well_formed(&self) -> bool {
        self.start <= self.end
    }

    /// Tests whether the range ends where it starts or behind it.
    pub fn is_well_formed(&self) -> (ok: bool)
        ensures
            ok == self.well_formed(),
    {
        self.start <= self.end
    }
}

/// A position in a source file. `line` counts from one.
#[derive(Debug, PartialEq, Eq)]
pub struct SourceRange {
    pub file_path: String,
    pub line: u64,
    pub col: Option<u64>,
}

/// The mathematical value of a [`SourceRange`].
pub ghost struct SourceRangeView {
    pub file_path: Seq<char>,
    pub line: u64,
    pub col: Option<u64>,
}

impl View for SourceRange {
    type V = SourceRangeView;

    open spec fn view(&self) -> SourceRangeView {
        SourceRangeView { file_path: self.file_path@, line: self.line, col: self.col }
    }
}

impl Clone for SourceRange {
    fn clone(&self) -> (copy: Self)
        ensures
            copy@ == self@,
    {
        SourceRange { file_path: self.file_path.clone(), line: self.line, col: self.col }
    }
}

/// One operation sequence and the address range in which it applies.
#[derive(Debug, PartialEq, Eq, Hash)]
pub struct DWARFOperationsList {
    pub operations: Vec<OperationJson>,
    pub range: AddressRange,
}

/// The mathematical value of a [`DWARFOperationsList`].
pub ghost struct OperationsListView {
    pub operations: Seq<OperationView>,
    pub range: AddressRange,
}

impl View for DWARFOperationsList {
    type V = OperationsListView;

    open spec fn view(&self) -> OperationsListView {
        OperationsListView { operations: operation_views(self.operations@), range: self.range }
    }
}

impl Clone for DWARFOperationsList {
    fn clone(&self) -> (copy: Self)
        ensures
            copy@ == self@,
    {
        DWARFOperationsList { operations: clone_operations(&self.operations), range: self.range }
    }
}

/// The values of a sequence of operation lists, in order.
pub open spec fn location_views(lists: Seq<DWARFOperationsList>) -> Seq<OperationsListView> {
    lists.map_values(|l: DWARFOperationsList| l@)
}

/// A local variable or formal parameter.
#[derive(Debug, PartialEq, Eq, Hash)]
pub struct Variable {
    /// Where the variable is valid, given only when it has no locations.
    pub address_ranges: Vec<AddressRange>,
    /// Where the variable lives, one list per address range.
    pub register_locations: Vec<DWARFOperationsList>,
    pub var_name: String,
    pub var_type_id: RustTypeId,
}

/// The mathematical value of a [`Variable`].
pub ghost struct VariableView {
    pub address_ranges: Seq<AddressRange>,
    pub register_locations: Seq<OperationsListView>,
    pub var_name: Seq<char>,
    pub var_type_id: RustTypeId,
}

impl View for Variable {
    type V = VariableView;

    open spec fn view(&self) -> VariableView {
        VariableView {
            address_ranges: self.address_ranges@,
            register_locations: location_views(self.register_locations@),
            var_name: self.var_name@,
            var_type_id: self.var_type_id,
        }
    }
}

/// The values of a sequence of variables, in order.
pub open spec fn variable_views(vars: Seq<Variable>) -> Seq<VariableView> {
    vars.map_values(|v: Variable| v@)
}

/// Copies a list of address ranges.
pub fn clone_ranges(ranges: &Vec<AddressRange>) -> (copy: Vec<AddressRange>)
    ensures
        copy@ == ranges@,
{
    let mut copy: Vec<AddressRange> = Vec::new();
    let mut i: usize = 0;
    while i < ranges.len()
        invariant
            i <= ranges.len(),
            copy@ == ranges@.subrange(0, i as int),
        decreases ranges.len() - i,
    {
        copy.push(ranges[i]);
        assert(copy@ =~= ranges@.subrange(0, i + 1));
        i += 1;
    }
    assert(ranges@.subrange(0, ranges.len() as int) =~= ranges@);
    copy
}

/// Whether two lists of address ranges are equal.
pub fn same_ranges(a: &Vec<AddressRange>, b: &Vec<AddressRange>) -> (same: bool)
    ensures
        same == (a@ == b@),
{
    if a.len() != b.len() {
        return false;
    }
    let mut i: usize = 0;
    while i < a.len()
        invariant
            i <= a.len(),
            a.len() == b.len(),
            forall|k: int| 0 <= k < i ==> a@[k] == b@[k],
        decreases a.len() - i,
    {
        if a[i].start != b[i].start || a[i].end != b[i].end {
            return false;
        }
        i += 1;
    }
    assert(a@ =~= b@);
    true
}

/// Copies a list of operation lists.
pub fn clone_locations(lists: &Vec<DWARFOperationsList>) -> (copy: Vec<DWARFOperationsList>)
    ensures
        location_views(copy@) == location_views(lists@),
{
    let mut copy: Vec<DWARFOperationsList> = Vec::new();
    let mut i: usize = 0;
    while i < lists.len()
        invariant
            i <= lists.len(),
            copy.len() == i,
            forall|k: int| 0 <= k < i ==> copy@[k]@ == lists@[k]@,
        decreases lists.len() - i,
    {
        copy.push(lists[i].clone());
        i += 1;
    }
    assert(location_views(copy@) =~= location_views(lists@));
    copy
}

/// Whether two lists of operation lists have the same values in the same
/// order.
pub fn same_locations(a: &Vec<DWARFOperationsList>, b: &Vec<DWARFOperationsList>) -> (same: bool)
    ensures
        same == (location_views(a@) == location_views(b@)),
{
    if a.len() != b.len() {
        assert(location_views(a@).len() != location_views(b@).len());
        return false;
    }
    let mut i: usize = 0;
    while i < a.len()
        invariant
            i <= a.len(),
            a.len() == b.len(),
            forall|k: int| 0 <= k < i ==> a@[k]@ == b@[k]@,
        decreases a.len() - i,
    {
        let same_ops = same_operations(&a[i].operations, &b[i].operations);
        if !same_ops || a[i].range.start != b[i].range.start || a[i].range.end != b[i].range.end {
            assert(location_views(a@)[i as int] != location_views(b@)[i as int]);
            return false;
        }
        i += 1;
    }
    assert(location_views(a@) =~= location_views(b@));
    true
}

impl Clone for Variable {
    fn clone(&self) -> (copy: Self)
        ensures
            copy@ == self@,
    {
        Variable {
            address_ranges: clone_ranges(&self.address_ranges),
            register_locations: clone_locations(&self.register_locations),
            var_name: self.var_name.clone(),
            var_type_id: self.var_type_id,
        }
    }
}

impl Variable {
    /// Whether two variables have the same value in every field.
    pub fn same_as(&self, other: &Variable) -> (same: bool)
        ensures
            same == (self@ == other@),
    {
        same_ranges(&self.address_ranges, &other.address_ranges) && same_locations(
            &self.register_locations,
            &other.register_locations,
        ) && self.var_name == other.var_name && self.var_type_id.0 == other.var_type_id.0
            && self.var_type_id.1 == other.var_type_id.1
    }
}

/// A set of variables kept as a sequence: the sequence with `v` added at the
/// end unless a variable of the same value is in it already.
pub open spec fn with_variable(vars: Seq<VariableView>, v: VariableView) -> Seq<VariableView> {
    if vars.contains(v) {
        vars
    } else {
        vars.push(v)
    }
}

/// Adds a variable to a set of variables unless one of the same value is in
/// it; says whether it was added.
pub fn insert_variable(vars: &mut Vec<Variable>, v: Variable) -> (added: bool)
    ensures
        variable_views(final(vars)@) == with_variable(variable_views(old(vars)@), v@),
        added == !variable_views(old(vars)@).contains(v@),
{
    let mut i: usize = 0;
    while i < vars.len()
        invariant
            i <= vars.len(),
            vars@ == old(vars)@,
            forall|k: int| 0 <= k < i ==> vars@[k]@ != v@,
        decreases vars.len() - i,
    {
        if vars[i].same_as(&v) {
            assert(variable_views(vars@)[i as int] == v@);
            return false;
        }
        i += 1;
    }
    assert(!variable_views(vars@).contains(v@)) by {
        if variable_views(vars@).contains(v@) {
            let k = choose|k: int|
                0 <= k < variable_views(vars@).len() && variable_views(vars@)[k] == v@;
            assert(vars@[k]@ == v@);
        }
    }
    vars.push(v);
    assert(variable_views(vars@) =~= variable_views(old(vars)@).push(v@));
    true
}

/// Copies a set of variables.
pub fn clone_variables(vars: &Vec<Variable>) -> (copy: Vec<Variable>)
    ensures
        variable_views(copy@) == variable_views(vars@),
{
    let mut copy: Vec<Variable> = Vec::new();
    let mut i: usize = 0;
    while i < vars.len()
        invariant
            i <= vars.len(),
            copy.len() == i,
            forall|k: int| 0 <= k < i ==> copy@[k]@ == vars@[k]@,
        decreases vars.len() - i,
    {
        copy.push(vars[i].clone());
        i += 1;
    }
    assert(variable_views(copy@) =~= variable_views(vars@));
    copy
}

/// What kind of method a [`Method`] is, with what only that kind has.
#[derive(Debug, PartialEq, Eq)]
pub enum MethodType {
    SubprogramType {
        /// The methods that were inlined into this subprogram, at any depth.
        inlined_methods: Vec<Method>,
        linkage_name: String,
    },
    InlinedMethodType {
        /// Where the call that was inlined stands in the source.
        call_site_range: SourceRange,
        /// How deep the inlined call is nested: larger for a call inlined
        /// into an inlined call.
        inline_depth: u64,
    },
}

/// A method while its unit is traversed.
#[derive(Debug, PartialEq, Eq)]
pub struct Method {
    pub method_type: MethodType,
    pub method_name: String,
    /// The variables of the method, none of them twice.
    pub variables: Vec<Variable>,
    pub decl_range: SourceRange,
    pub address_ranges: Vec<AddressRange>,
}

/// The mathematical value of a [`MethodType`].
pub ghost enum MethodTypeView {
    SubprogramType { inlined_methods: Seq<MethodView>, linkage_name: Seq<char> },
    InlinedMethodType { call_site_range: SourceRangeView, inline_depth: u64 },
}

/// The mathematical value of a [`Method`].
pub ghost struct MethodView {
    pub method_type: MethodTypeView,
    pub method_name: Seq<char>,
    pub variables: Seq<VariableView>,
    pub decl_range: SourceRangeView,
    pub address_ranges: Seq<AddressRange>,
}

/// The value of a method, with the values of the methods it holds.
pub open spec fn method_view(m: Method) -> MethodView
    decreases m,
{
    MethodView {
        method_type: match m.method_type {
            MethodType::SubprogramType { inlined_methods, linkage_name } => {
                MethodTypeView::SubprogramType {
                    inlined_methods: Seq::new(
                        inlined_methods@.len(),
                        |i: int|
                            if 0 <= i < inlined_methods@.len() {
                                method_view(inlined_methods@[i])
                            } else {
                                arbitrary()
                            },
                    ),
                    linkage_name: linkage_name@,
                }
            },
            MethodType::InlinedMethodType { call_site_range, inline_depth } => {
                MethodTypeView::InlinedMethodType {
                    call_site_range: call_site_range@,
                    inline_depth,
                }
            },
        },
        method_name: m.method_name@,
        variables: variable_views(m.variables@),
        decl_range: m.decl_range@,
        address_ranges: m.address_ranges@,
    }
}

impl View for Method {
    type V = MethodView;

    open spec fn view(&self) -> MethodView {
        method_view(*self)
    }
}

/// The values of a sequence of methods, in order.
pub open spec fn method_views(methods: Seq<Method>) -> Seq<MethodView> {
    methods.map_values(|m: Method| m@)
}

/// The methods held by a subprogram are viewed one by one.
pub proof fn lemma_inlined_views(m: Method)
    requires
        m.method_type is SubprogramType,
    ensures
        m@.method_type is SubprogramType,
        m@.method_type->inlined_methods == method_views(m.method_type->inlined_methods@),
        m@.method_type->linkage_name == m.method_type->linkage_name@,
{
    assert(m@.method_type->inlined_methods =~= method_views(m.method_type->inlined_methods@));
}

/// A subprogram as it is reported.
#[derive(Debug, PartialEq, Eq)]
pub struct Subprogram {
    pub method_name: String,
    pub linkage_name: String,
    pub variables: Vec<Variable>,
    pub decl_range: SourceRange,
    pub address_ranges: Vec<AddressRange>,
    pub inlined_methods: Vec<InlinedMethod>,
}

/// A method that was inlined into a subprogram, as it is reported.
#[derive(Debug, PartialEq, Eq)]
pub struct InlinedMethod {
    pub inline_depth: u64,
    pub call_site_range: SourceRange,
    pub method_name: String,
    pub variables: Vec<Variable>,
    pub decl_range: SourceRange,
    pub address_ranges: Vec<AddressRange>,
}

/// The mathematical value of an [`InlinedMethod`].
pub ghost struct InlinedMethodView {
    pub inline_depth: u64,
    pub call_site_range: SourceRangeView,
    pub method_name: Seq<char>,
    pub variables: Seq<VariableView>,
    pub decl_range: SourceRangeView,
    pub address_ranges: Seq<AddressRange>,
}

impl View for InlinedMethod {
    type V = InlinedMethodView;

    open spec fn view(&self) -> InlinedMethodView {
        InlinedMethodView {
            inline_depth: self.inline_depth,
            call_site_range: self.call_site_range@,
            method_name: self.method_name@,
            variables: variable_views(self.variables@),
            decl_range: self.decl_range@,
            address_ranges: self.address_ranges@,
        }
    }
}

/// The values of a sequence of inlined methods, in order.
pub open spec fn inlined_views(methods: Seq<InlinedMethod>) -> Seq<InlinedMethodView> {
    methods.map_values(|m: InlinedMethod| m@)
}

/// The mathematical value of a [`Subprogram`].
pub ghost struct SubprogramView {
    pub method_name: Seq<char>,
    pub linkage_name: Seq<char>,
    pub variables: Seq<VariableView>,
    pub decl_range: SourceRangeView,
    pub address_ranges: Seq<AddressRange>,
    pub inlined_methods: Seq<InlinedMethodView>,
}

impl View for Subprogram {
    type V = SubprogramView;

    open spec fn view(&self) -> SubprogramView {
        SubprogramView {
            method_name: self.method_name@,
            linkage_name: self.linkage_name@,
            variables: variable_views(self.variables@),
            decl_range: self.decl_range@,
            address_ranges: self.address_ranges@,
            inlined_methods: inlined_views(self.inlined_methods@),
        }
    }
}

/// The values of a sequence of subprograms, in order.
pub open spec fn subprogram_views(subprograms: Seq<Subprogram>) -> Seq<SubprogramView> {
    subprograms.map_values(|s: Subprogram| s@)
}

/// One row of the table from code addresses to source positions. A row whose
/// file is the end-of-sequence marker closes a run of addresses.
#[derive(Debug, PartialEq, Eq)]
pub struct LineNumberInfo {
    pub address: u64,
    pub file_path: String,
    pub col: u64,
    pub line: u64,
}

/// The mathematical value of a [`LineNumberInfo`].
pub ghost struct LineNumberInfoView {
    pub address: u64,
    pub file_path: Seq<char>,
    pub col: u64,
    pub line: u64,
}

impl View for LineNumberInfo {
    type V = LineNumberInfoView;

    open spec fn view(&self) -> LineNumberInfoView {
        LineNumberInfoView {
            address: self.address,
            file_path: self.file_path@,
            col: self.col,
            line: self.line,
        }
    }
}

impl Clone for LineNumberInfo {
    fn clone(&self) -> (copy: Self)
        ensures
            copy@ == self@,
    {
        LineNumberInfo {
            address: self.address,
            file_path: self.file_path.clone(),
            col: self.col,
            line: self.line,
        }
    }
}

/// The values of a sequence of line rows, in order.
pub open spec fn line_views(rows: Seq<LineNumberInfo>) -> Seq<LineNumberInfoView> {
    rows.map_values(|r: LineNumberInfo| r@)
}

/// The views of a sequence of strings, in order.
pub open spec fn text_views(texts: Seq<String>) -> Seq<Seq<char>> {
    texts.map_values(|t: String| t@)
}

/// What was extracted from one compilation unit.
pub struct CompilationUnit<'a> {
    pub options: &'a ParsingOptions,
    /// The methods as the traversal found them; they are reported through
    /// `subprograms`.
    pub methods: Vec<Method>,
    pub subprograms: Vec<Subprogram>,
    /// The address ranges of the whole unit.
    pub ranges: Vec<AddressRange>,
    pub line_number_info: Vec<LineNumberInfo>,
    /// What could not be read, one message each.
    pub parsing_errors: Vec<String>,
}

/// The whole report: every unit, every type that a variable reaches, and
/// every message.
pub struct DWARFDebugInformation<'a> {
    pub compilation_units: &'a Vec<CompilationUnit<'a>>,
    pub type_nodes: &'a Vec<(RustTypeId, RustType)>,
    pub parsing_errors: Vec<String>,
}

/// The types of a sequence of variables, in order.
pub open spec fn variable_ids(vars: Seq<VariableView>) -> Seq<RustTypeId> {
    vars.map_values(|v: VariableView| v.var_type_id)
}

/// The types of the variables of a sequence of inlined methods, method by
/// method.
pub open spec fn inlined_ids(methods: Seq<InlinedMethodView>) -> Seq<RustTypeId>
    decreases methods.len(),
{
    if methods.len() == 0 {
        Seq::empty()
    } else {
        inlined_ids(methods.drop_last()) + variable_ids(methods.last().variables)
    }
}

/// The types of the variables of a subprogram: those of its own variables,
/// then those of the methods inlined into it.
pub open spec fn subprogram_ids(subprogram: SubprogramView) -> Seq<RustTypeId> {
    variable_ids(subprogram.variables) + inlined_ids(subprogram.inlined_methods)
}

/// The types of the variables of a sequence of subprograms, subprogram by
/// subprogram.
pub open spec fn subprograms_ids(subprograms: Seq<SubprogramView>) -> Seq<RustTypeId>
    decreases subprograms.len(),
{
    if subprograms.len() == 0 {
        Seq::empty()
    } else {
        subprograms_ids(subprograms.drop_last()) + subprogram_ids(subprograms.last())
    }
}

/// The types of all variables of a sequence of units, unit by unit.
pub open spec fn all_var_type_ids(units: Seq<CompilationUnit>) -> Seq<RustTypeId>
    decreases units.len(),
{
    if units.len() == 0 {
        Seq::empty()
    } else {
        all_var_type_ids(units.drop_last()) + subprograms_ids(
            subprogram_views(units.last().subprograms@),
        )
    }
}

fn push_variable_ids(vars: &Vec<Variable>, ids: &mut Vec<RustTypeId>)
    ensures
        final(ids)@ == old(ids)@ + variable_ids(variable_views(vars@)),
{
    let mut i: usize = 0;
    proof {
        assert(ids@ =~= old(ids)@ + variable_ids(variable_views(vars@)).subrange(0, 0));
    }
    while i < vars.len()
        invariant
            i <= vars.len(),
            ids@ == old(ids)@ + variable_ids(variable_views(vars@)).subrange(0, i as int),
        decreases vars.len() - i,
    {
        ids.push(vars[i].var_type_id);
        proof {
            let all = variable_ids(variable_views(vars@));
            assert(all[i as int] == vars@[i as int].var_type_id);
            assert(ids@ =~= old(ids)@ + all.subrange(0, i + 1));
        }
        i += 1;
    }
    proof {
        let all = variable_ids(variable_views(vars@));
        assert(all.subrange(0, vars.len() as int) =~= all);
    }
}

fn push_subprogram_ids(subprogram: &Subprogram, ids: &mut Vec<RustTypeId>)
    ensures
        final(ids)@ == old(ids)@ + subprogram_ids(subprogram@),
{
    push_variable_ids(&subprogram.variables, ids);
    let ghost start = ids@;
    let mut i: usize = 0;
    proof {
        assert(inlined_views(subprogram.inlined_methods@).subrange(0, 0) =~= Seq::empty());
        assert(ids@ =~= start + Seq::<RustTypeId>::empty());
    }
    while i < subprogram.inlined_methods.len()
        invariant
            i <= subprogram.inlined_methods.len(),
            ids@ == start + inlined_ids(
                inlined_views(subprogram.inlined_methods@).subrange(0, i as int),
            ),
        decreases subprogram.inlined_methods.len() - i,
    {
        let ghost before = ids@;
        push_variable_ids(&subprogram.inlined_methods[i].variables, ids);
        proof {
            let all = inlined_views(subprogram.inlined_methods@);
            assert(all.subrange(0, i + 1).drop_last() =~= all.subrange(0, i as int));
            assert(all.subrange(0, i + 1).last() == subprogram.inlined_methods@[i as int]@);
            assert(ids@ =~= start + inlined_ids(all.subrange(0, i + 1)));
        }
        i += 1;
    }
    proof {
        let all = inlined_views(subprogram.inlined_methods@);
        assert(all.subrange(0, all.len() as int) =~= all);
        assert(ids@ =~= old(ids)@ + subprogram_ids(subprogram@));
    }
}

fn push_unit_ids(unit: &CompilationUnit, ids: &mut Vec<RustTypeId>)
    ensures
        final(ids)@ == old(ids)@ + subprograms_ids(subprogram_views(unit.subprograms@)),
{
    let mut i: usize = 0;
    proof {
        assert(subprogram_views(unit.subprograms@).subrange(0, 0) =~= Seq::empty());
        assert(ids@ =~= old(ids)@ + Seq::<RustTypeId>::empty());
    }
    while i < unit.subprograms.len()
        invariant
            i <= unit.subprograms.len(),
            ids@ == old(ids)@ + subprograms_ids(
                subprogram_views(unit.subprograms@).subrange(0, i as int),
            ),
        decreases unit.subprograms.len() - i,
    {
        push_subprogram_ids(&unit.subprograms[i], ids);
        proof {
            let all = subprogram_views(unit.subprograms@);
            assert(all.subrange(0, i + 1).drop_last() =~= all.subrange(0, i as int));
            assert(all.subrange(0, i + 1).last() == unit.subprograms@[i as int]@);
            assert(ids@ =~= old(ids)@ + subprograms_ids(all.subrange(0, i + 1)));
        }
        i += 1;
    }
    proof {
        let all = subprogram_views(unit.subprograms@);
        assert(all.subrange(0, all.len() as int) =~= all);
    }
}

/// Gathers the types of all variables of all subprograms and inlined
/// methods of the given units, in the order in which the units hold them.
pub fn extract_all_var_type_ids(compilation_units: &Vec<CompilationUnit>) -> (ids: Vec<RustTypeId>)
    ensures
        ids@ == all_var_type_ids(compilation_units@),
{
    let mut ids: Vec<RustTypeId> = Vec::new();
    let mut i: usize = 0;
    proof {
        assert(compilation_units@.subrange(0, 0) =~= Seq::empty());
    }
    while i < compilation_units.len()
        invariant
            i <= compilation_units.len(),
            ids@ == all_var_type_ids(compilation_units@.subrange(0, i as int)),
        decreases compilation_units.len() - i,
    {
        push_unit_ids(&compilation_units[i], &mut ids);
        proof {
            let all = compilation_units@;
            assert(all.subrange(0, i + 1).drop_last() =~= all.subrange(0, i as int));
        }
        i += 1;
    }
    proof {
        assert(compilation_units@.subrange(0, compilation_units.len() as int)
            =~= compilation_units@);
    }
    ids
}

} // verus!
