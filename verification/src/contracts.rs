//! The entry-point table: the interface that a stored contract publishes.

use vstd::prelude::*;

use vstd::slice::slice_subrange;

use crate::bytesrepr::{Error, FromBytes, ToBytes};
use crate::cl_type::CLType;
use crate::name_order::{compare_names, Place};

verus! {

/// Who may call an entry point.
#[derive(Clone, Copy, Debug, PartialEq, Eq, Structural)]
pub enum EntryPointAccess {
    /// Anyone.
    Public,
    /// Only callers that the contract has admitted.
    Restricted,
}

/// In whose context an entry point runs.
#[derive(Clone, Copy, Debug, PartialEq, Eq, Structural)]
pub enum EntryPointType {
    /// In the context of the caller.
    Session,
    /// In the context of the contract.
    Contract,
}

/// A named parameter of an entry point.
#[derive(Debug, PartialEq, Eq)]
pub struct Parameter {
    name: String,
    cl_type: CLType,
}

/// The model of a parameter.
pub struct ParameterView {
    /// The name.
    pub name: Seq<char>,
    /// The type of the argument.
    pub cl_type: CLType,
}

impl View for Parameter {
    type V = ParameterView;

    closed spec fn view(&self) -> ParameterView {
        ParameterView { name: self.name@, cl_type: self.cl_type }
    }
}

impl DeepView for Parameter {
    type V = ParameterView;

    open spec fn deep_view(&self) -> ParameterView {
        self@
    }
}

impl Parameter {
    /// The parameter `name` of type `cl_type`.
    pub fn new(name: &str, cl_type: CLType) -> (r: Parameter)
        ensures
            r@ == (ParameterView { name: name@, cl_type }),
    {
        Parameter { name: name.to_owned(), cl_type }
    }

    /// The name.
    pub fn name(&self) -> (r: &String)
        ensures
            r@ == self@.name,
    {
        &self.name
    }

    /// The type of the argument.
    pub fn cl_type(&self) -> (r: &CLType)
        ensures
            *r == self@.cl_type,
    {
        &self.cl_type
    }

    /// A copy of this parameter.
    pub fn duplicate(&self) -> (r: Parameter)
        ensures
            r@ == self@,
    {
        Parameter { name: self.name.clone(), cl_type: self.cl_type.duplicate() }
    }
}

/// One callable function of a contract.
#[derive(Debug, PartialEq, Eq)]
pub struct EntryPoint {
    name: String,
    parameters: Vec<Parameter>,
    ret: CLType,
    access: EntryPointAccess,
    entry_point_type: EntryPointType,
}

/// The model of an entry point.
pub struct EntryPointView {
    /// The name under which it is called.
    pub name: Seq<char>,
    /// The parameters, in order.
    pub parameters: Seq<ParameterView>,
    /// The type of the result.
    pub ret: CLType,
    /// Who may call it.
    pub access: EntryPointAccess,
    /// In whose context it runs.
    pub entry_point_type: EntryPointType,
}

impl View for EntryPoint {
    type V = EntryPointView;

    closed spec fn view(&self) -> EntryPointView {
        EntryPointView {
            name: self.name@,
            parameters: self.parameters.deep_view(),
            ret: self.ret,
            access: self.access,
            entry_point_type: self.entry_point_type,
        }
    }
}

impl DeepView for EntryPoint {
    type V = EntryPointView;

    open spec fn deep_view(&self) -> EntryPointView {
        self@
    }
}

impl EntryPoint {
    /// The entry point with the given parts.
    pub fn new(
        name: String,
        parameters: Vec<Parameter>,
        ret: CLType,
        access: EntryPointAccess,
        entry_point_type: EntryPointType,
    ) -> (r: EntryPoint)
        ensures
            r@ == (EntryPointView {
                name: name@,
                parameters: parameters.deep_view(),
                ret,
                access,
                entry_point_type,
            }),
    {
        EntryPoint { name, parameters, ret, access, entry_point_type }
    }

    /// The name under which it is called.
    pub fn name(&self) -> (r: &String)
        ensures
            r@ == self@.name,
    {
        &self.name
    }

    /// The parameters, in order.
    pub fn parameters(&self) -> (r: &Vec<Parameter>)
        ensures
            r.deep_view() == self@.parameters,
    {
        &self.parameters
    }

    /// The type of the result.
    pub fn ret(&self) -> (r: &CLType)
        ensures
            *r == self@.ret,
    {
        &self.ret
    }

    /// Who may call it.
    pub fn access(&self) -> (r: EntryPointAccess)
        ensures
            r == self@.access,
    {
        self.access
    }

    /// In whose context it runs.
    pub fn entry_point_type(&self) -> (r: EntryPointType)
        ensures
            r == self@.entry_point_type,
    {
        self.entry_point_type
    }

    /// A copy of this entry point.
    pub fn duplicate(&self) -> (r: EntryPoint)
        ensures
            r@ == self@,
    {
        let mut parameters: Vec<Parameter> = Vec::new();
        let mut i: usize = 0;
        while i < self.parameters.len()
            invariant
                i <= self.parameters.len(),
                parameters.deep_view() == self.parameters.deep_view().take(i as int),
            decreases self.parameters.len() - i,
        {
            let ghost before = parameters.deep_view();
            parameters.push(self.parameters[i].duplicate());
            proof {
                assert(parameters.deep_view() =~= before.push(self.parameters@[i as int]@));
                assert(self.parameters.deep_view().take(i + 1) =~= self.parameters.deep_view().take(
                    i as int,
                ).push(self.parameters@[i as int]@));
            }
            i = i + 1;
        }
        proof {
            assert(self.parameters.deep_view().take(i as int) =~= self.parameters.deep_view());
        }
        EntryPoint {
            name: self.name.clone(),
            parameters,
            ret: self.ret.duplicate(),
            access: self.access,
            entry_point_type: self.entry_point_type,
        }
    }
}

/// Where the first entry point named `name` stands in a table, or the
/// length of the table where none has that name.
pub open spec fn position_of(table: Seq<EntryPointView>, name: Seq<char>) -> int
    decreases table.len(),
{
    if table.len() == 0 {
        0
    } else if table[0].name == name {
        0
    } else {
        1 + position_of(table.skip(1), name)
    }
}

/// The table with `e` in it: in place of the first entry point of the same
/// name, or at the end where there is none.
pub open spec fn table_with(table: Seq<EntryPointView>, e: EntryPointView) -> Seq<EntryPointView> {
    let p = position_of(table, e.name);
    if 0 <= p < table.len() {
        table.update(p, e)
    } else {
        table.push(e)
    }
}

/// The position of a name lies within the table or just behind it, and no
/// entry point before it has the name.
pub proof fn lemma_position_of(table: Seq<EntryPointView>, name: Seq<char>)
    ensures
        0 <= position_of(table, name) <= table.len(),
        position_of(table, name) < table.len() ==> table[position_of(table, name)].name == name,
        forall|i: int| 0 <= i < position_of(table, name) ==> (#[trigger] table[i]).name != name,
    decreases table.len(),
{
    if table.len() > 0 && table[0].name != name {
        lemma_position_of(table.skip(1), name);
        let p = position_of(table.skip(1), name);
        assert forall|i: int| 0 <= i < 1 + p implies (#[trigger] table[i]).name != name by {
            if i > 0 {
                assert(table.skip(1)[i - 1] == table[i]);
            }
        }
        if p < table.skip(1).len() {
            assert(table.skip(1)[p] == table[p + 1]);
        }
    }
}

/// The entry points of a contract, in the order in which they were added.
#[derive(Debug, PartialEq, Eq)]
pub struct EntryPoints {
    entries: Vec<EntryPoint>,
}

impl View for EntryPoints {
    type V = Seq<EntryPointView>;

    closed spec fn view(&self) -> Seq<EntryPointView> {
        self.entries.deep_view()
    }
}

impl DeepView for EntryPoints {
    type V = Seq<EntryPointView>;

    open spec fn deep_view(&self) -> Seq<EntryPointView> {
        self@
    }
}

impl EntryPoints {
    /// The empty table.
    pub fn new() -> (r: EntryPoints)
        ensures
            r@ == Seq::<EntryPointView>::empty(),
    {
        let r = EntryPoints { entries: Vec::new() };
        proof {
            assert(r@ =~= Seq::<EntryPointView>::empty());
        }
        r
    }

    /// The number of entry points.
    pub fn len(&self) -> (r: usize)
        ensures
            r == self@.len(),
    {
        self.entries.len()
    }

    /// The entry point at `i`.
    pub fn get(&self, i: usize) -> (r: &EntryPoint)
        requires
            i < self@.len(),
        ensures
            r@ == self@[i as int],
    {
        &self.entries[i]
    }

    /// Adds an entry point: in place of the first one of the same name, or
    /// at the end where there is none.
    pub fn add_entry_point(&mut self, entry_point: EntryPoint)
        ensures
            final(self)@ == table_with(old(self)@, entry_point@),
    {
        let ghost table = self@;
        let mut i: usize = 0;
        proof {
            assert(table.skip(0) =~= table);
        }
        while i < self.entries.len()
            invariant
                i <= self.entries.len(),
                table == old(self)@,
                table == self.entries.deep_view(),
                position_of(table, entry_point@.name) == i + position_of(
                    table.skip(i as int),
                    entry_point@.name,
                ),
            decreases self.entries.len() - i,
        {
            proof {
                assert(table.skip(i as int)[0] == self.entries@[i as int]@);
                assert(table.skip(i as int).skip(1) =~= table.skip(i + 1));
            }
            if same_text(self.entries[i].name.as_str(), entry_point.name.as_str()) {
                self.entries[i] = entry_point;
                proof {
                    assert(self.entries.deep_view() =~= table.update(i as int, entry_point@));
                }
                return ;
            }
            i = i + 1;
        }
        self.entries.push(entry_point);
        proof {
            assert(self.entries.deep_view() =~= table.push(entry_point@));
        }
    }

    /// A copy of this table.
    pub fn duplicate(&self) -> (r: EntryPoints)
        ensures
            r@ == self@,
    {
        let mut entries: Vec<EntryPoint> = Vec::new();
        let mut i: usize = 0;
        while i < self.entries.len()
            invariant
                i <= self.entries.len(),
                entries.deep_view() == self.entries.deep_view().take(i as int),
            decreases self.entries.len() - i,
        {
            let ghost before = entries.deep_view();
            entries.push(self.entries[i].duplicate());
            proof {
                assert(entries.deep_view() =~= before.push(self.entries@[i as int]@));
                assert(self.entries.deep_view().take(i + 1) =~= self.entries.deep_view().take(
                    i as int,
                ).push(self.entries@[i as int]@));
            }
            i = i + 1;
        }
        proof {
            assert(self.entries.deep_view().take(i as int) =~= self.entries.deep_view());
        }
        EntryPoints { entries }
    }
}

/// Whether two strings are the same.
pub fn same_text(a: &str, b: &str) -> (r: bool)
    ensures
        r == (a@ == b@),
{
    compare_names(a, b) == Place::Same
}


impl EntryPointAccess {
    /// The byte that stands for the access.
    pub open spec fn spec_tag(self) -> u8 {
        match self {
            EntryPointAccess::Public => 1,
            EntryPointAccess::Restricted => 2,
        }
    }
}

impl DeepView for EntryPointAccess {
    type V = EntryPointAccess;

    open spec fn deep_view(&self) -> EntryPointAccess {
        *self
    }
}

impl ToBytes for EntryPointAccess {
    open spec fn wire(v: EntryPointAccess) -> Seq<u8> {
        seq![v.spec_tag()]
    }

    open spec fn fits(v: EntryPointAccess) -> bool {
        true
    }

    fn write_bytes(&self, out: &mut Vec<u8>) -> (ok: bool) {
        match self {
            EntryPointAccess::Public => out.push(1),
            EntryPointAccess::Restricted => out.push(2),
        }
        true
    }
}

impl FromBytes for EntryPointAccess {
    open spec fn parse(bytes: Seq<u8>) -> Result<(EntryPointAccess, int), Error> {
        if bytes.len() < 1 {
            Err(Error::EarlyEndOfStream)
        } else if bytes[0] == 1 {
            Ok((EntryPointAccess::Public, 1))
        } else if bytes[0] == 2 {
            Ok((EntryPointAccess::Restricted, 1))
        } else {
            Err(Error::FormattingError)
        }
    }

    fn from_bytes(bytes: &[u8]) -> (r: Result<(EntryPointAccess, &[u8]), Error>) {
        if bytes.len() < 1 {
            return Err(Error::EarlyEndOfStream);
        }
        let rest = slice_subrange(bytes, 1, bytes.len());
        let tag: u8 = bytes[0];
        if tag == 1 {
            Ok((EntryPointAccess::Public, rest))
        } else if tag == 2 {
            Ok((EntryPointAccess::Restricted, rest))
        } else {
            Err(Error::FormattingError)
        }
    }

    proof fn lemma_parse_wire(x: EntryPointAccess, rest: Seq<u8>) {
    }
}

impl EntryPointType {
    /// The byte that stands for the kind.
    pub open spec fn spec_tag(self) -> u8 {
        match self {
            EntryPointType::Session => 0,
            EntryPointType::Contract => 1,
        }
    }
}

impl DeepView for EntryPointType {
    type V = EntryPointType;

    open spec fn deep_view(&self) -> EntryPointType {
        *self
    }
}

impl ToBytes for EntryPointType {
    open spec fn wire(v: EntryPointType) -> Seq<u8> {
        seq![v.spec_tag()]
    }

    open spec fn fits(v: EntryPointType) -> bool {
        true
    }

    fn write_bytes(&self, out: &mut Vec<u8>) -> (ok: bool) {
        match self {
            EntryPointType::Session => out.push(0),
            EntryPointType::Contract => out.push(1),
        }
        true
    }
}

impl FromBytes for EntryPointType {
    open spec fn parse(bytes: Seq<u8>) -> Result<(EntryPointType, int), Error> {
        if bytes.len() < 1 {
            Err(Error::EarlyEndOfStream)
        } else if bytes[0] == 0 {
            Ok((EntryPointType::Session, 1))
        } else if bytes[0] == 1 {
            Ok((EntryPointType::Contract, 1))
        } else {
            Err(Error::FormattingError)
        }
    }

    fn from_bytes(bytes: &[u8]) -> (r: Result<(EntryPointType, &[u8]), Error>) {
        if bytes.len() < 1 {
            return Err(Error::EarlyEndOfStream);
        }
        let rest = slice_subrange(bytes, 1, bytes.len());
        let tag: u8 = bytes[0];
        if tag == 0 {
            Ok((EntryPointType::Session, rest))
        } else if tag == 1 {
            Ok((EntryPointType::Contract, rest))
        } else {
            Err(Error::FormattingError)
        }
    }

    proof fn lemma_parse_wire(x: EntryPointType, rest: Seq<u8>) {
    }
}

impl ToBytes for Parameter {
    open spec fn wire(v: ParameterView) -> Seq<u8> {
        <(String, CLType)>::wire((v.name, v.cl_type))
    }

    open spec fn fits(v: ParameterView) -> bool {
        <(String, CLType)>::fits((v.name, v.cl_type))
    }

    fn write_bytes(&self, out: &mut Vec<u8>) -> (ok: bool) {
        if !self.name.write_bytes(out) {
            return false;
        }
        self.cl_type.write(out);
        proof {
            assert(out@ =~= old(out)@ + Self::wire(self@));
        }
        true
    }
}

impl FromBytes for Parameter {
    open spec fn parse(bytes: Seq<u8>) -> Result<(ParameterView, int), Error> {
        match <(String, CLType)>::parse(bytes) {
            Ok((v, n)) => Ok((ParameterView { name: v.0, cl_type: v.1 }, n)),
            Err(e) => Err(e),
        }
    }

    fn from_bytes(bytes: &[u8]) -> (r: Result<(Parameter, &[u8]), Error>) {
        match <(String, CLType)>::from_bytes(bytes) {
            Ok((pair, rest)) => Ok((Parameter { name: pair.0, cl_type: pair.1 }, rest)),
            Err(e) => Err(e),
        }
    }

    proof fn lemma_parse_wire(x: Parameter, rest: Seq<u8>) {
        <(String, CLType)>::lemma_parse_wire((x.name, x.cl_type), rest);
    }
}

impl ToBytes for EntryPoint {
    open spec fn wire(v: EntryPointView) -> Seq<u8> {
        <((String, Vec<Parameter>), (CLType, (EntryPointAccess, EntryPointType)))>::wire(
            ((v.name, v.parameters), (v.ret, (v.access, v.entry_point_type))),
        )
    }

    open spec fn fits(v: EntryPointView) -> bool {
        <((String, Vec<Parameter>), (CLType, (EntryPointAccess, EntryPointType)))>::fits(
            ((v.name, v.parameters), (v.ret, (v.access, v.entry_point_type))),
        )
    }

    fn write_bytes(&self, out: &mut Vec<u8>) -> (ok: bool) {
        if !self.name.write_bytes(out) {
            return false;
        }
        if !self.parameters.write_bytes(out) {
            return false;
        }
        self.ret.write(out);
        self.access.write_bytes(out);
        self.entry_point_type.write_bytes(out);
        proof {
            assert(out@ =~= old(out)@ + Self::wire(self@));
        }
        true
    }
}

impl FromBytes for EntryPoint {
    open spec fn parse(bytes: Seq<u8>) -> Result<(EntryPointView, int), Error> {
        match <((String, Vec<Parameter>), (CLType, (EntryPointAccess, EntryPointType)))>::parse(
            bytes,
        ) {
            Ok((v, n)) => Ok(
                (
                    EntryPointView {
                        name: v.0.0,
                        parameters: v.0.1,
                        ret: v.1.0,
                        access: v.1.1.0,
                        entry_point_type: v.1.1.1,
                    },
                    n,
                ),
            ),
            Err(e) => Err(e),
        }
    }

    fn from_bytes(bytes: &[u8]) -> (r: Result<(EntryPoint, &[u8]), Error>) {
        match <((String, Vec<Parameter>), (CLType, (EntryPointAccess, EntryPointType)))>::from_bytes(
            bytes,
        ) {
            Ok((parts, rest)) => {
                let ((name, parameters), (ret, (access, entry_point_type))) = parts;
                Ok((EntryPoint { name, parameters, ret, access, entry_point_type }, rest))
            },
            Err(e) => Err(e),
        }
    }

    proof fn lemma_parse_wire(x: EntryPoint, rest: Seq<u8>) {
        <((String, Vec<Parameter>), (CLType, (EntryPointAccess, EntryPointType)))>::lemma_parse_wire(
            ((x.name, x.parameters), (x.ret, (x.access, x.entry_point_type))),
            rest,
        );
    }
}

impl ToBytes for EntryPoints {
    open spec fn wire(v: Seq<EntryPointView>) -> Seq<u8> {
        Vec::<EntryPoint>::wire(v)
    }

    open spec fn fits(v: Seq<EntryPointView>) -> bool {
        Vec::<EntryPoint>::fits(v)
    }

    fn write_bytes(&self, out: &mut Vec<u8>) -> (ok: bool) {
        self.entries.write_bytes(out)
    }
}

impl FromBytes for EntryPoints {
    open spec fn parse(bytes: Seq<u8>) -> Result<(Seq<EntryPointView>, int), Error> {
        Vec::<EntryPoint>::parse(bytes)
    }

    fn from_bytes(bytes: &[u8]) -> (r: Result<(EntryPoints, &[u8]), Error>) {
        match Vec::<EntryPoint>::from_bytes(bytes) {
            Ok((entries, rest)) => Ok((EntryPoints { entries }, rest)),
            Err(e) => Err(e),
        }
    }

    proof fn lemma_parse_wire(x: EntryPoints, rest: Seq<u8>) {
        Vec::<EntryPoint>::lemma_parse_wire(x.entries, rest);
    }
}

} // verus!
