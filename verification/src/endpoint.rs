//! Endpoints and the one-argument notation that describes them.
//!
//! A description starts with a delimiter of the caller's choice. The fields that it separates are
//! the largest request size, the route, the command, and then the parameters, each with an
//! optional validator behind an arrow: `,1024,/mail,send,to -> check-address,subject`.

use crate::text;
use vstd::prelude::*;

verus! {

/// A field that a request has to bring, and the command that checks its value.
#[derive(Debug)]
pub struct Parameter {
    pub name: String,
    pub validator: Option<String>,
}

impl Clone for Parameter {
    fn clone(&self) -> (copy: Parameter)
        ensures
            copy@ == self@,
    {
        Parameter {
            name: self.name.clone(),
            validator: match &self.validator {
                Some(validator) => Some(validator.clone()),
                None => None,
            },
        }
    }
}

/// The view of a `Parameter`.
pub struct ParameterModel {
    pub name: Seq<char>,
    pub validator: Option<Seq<char>>,
}

impl View for Parameter {
    type V = ParameterModel;

    open spec fn view(&self) -> ParameterModel {
        ParameterModel {
            name: self.name@,
            validator: match self.validator {
                Some(validator) => Some(validator@),
                None => None,
            },
        }
    }
}

/// What a route accepts and which command handles it.
pub struct Endpoint {
    pub max_request_size: usize,
    pub route: String,
    pub command: String,
    pub parameters: Vec<Parameter>,
}

/// The view of an `Endpoint`.
pub struct EndpointModel {
    pub max_request_size: usize,
    pub route: Seq<char>,
    pub command: Seq<char>,
    pub parameters: Seq<ParameterModel>,
}

/// The views of some parameters.
pub open spec fn parameter_models(parameters: Seq<Parameter>) -> Seq<ParameterModel> {
    parameters.map_values(|p: Parameter| p@)
}

impl View for Endpoint {
    type V = EndpointModel;

    open spec fn view(&self) -> EndpointModel {
        EndpointModel {
            max_request_size: self.max_request_size,
            route: self.route@,
            command: self.command@,
            parameters: parameter_models(self.parameters@),
        }
    }
}

impl Default for Endpoint {
    fn default() -> (endpoint: Endpoint)
        ensures
            endpoint.max_request_size == 1028,
            endpoint.route@ == Seq::<char>::empty(),
            endpoint.command@ == Seq::<char>::empty(),
            endpoint.parameters@ == Seq::<Parameter>::empty(),
    {
        Self {
            max_request_size: 1028_usize,
            route: String::new(),
            command: String::new(),
            parameters: Vec::new(),
        }
    }
}

/// How a request to an endpoint is encoded.
pub enum EncodedEndpoint {
    Multipart(Endpoint),
    UrlEncoded(Endpoint),
}

/// The view of an `EncodedEndpoint`.
pub enum EncodedEndpointModel {
    Multipart(EndpointModel),
    UrlEncoded(EndpointModel),
}

impl View for EncodedEndpoint {
    type V = EncodedEndpointModel;

    open spec fn view(&self) -> EncodedEndpointModel {
        match self {
            EncodedEndpoint::Multipart(endpoint) => EncodedEndpointModel::Multipart(endpoint@),
            EncodedEndpoint::UrlEncoded(endpoint) => EncodedEndpointModel::UrlEncoded(endpoint@),
        }
    }
}

/// The views of endpoints and of their parameters hold what they hold.
pub proof fn law_views(endpoint: Endpoint, parameter: Parameter)
    ensures
        parameter@.name == parameter.name@,
        parameter@.validator is Some <==> parameter.validator is Some,
        parameter.validator matches Some(validator) ==> parameter@.validator == Some(validator@),
        endpoint@.max_request_size == endpoint.max_request_size,
        endpoint@.route == endpoint.route@,
        endpoint@.command == endpoint.command@,
        endpoint@.parameters.len() == endpoint.parameters@.len(),
        forall|i: int|
            0 <= i < endpoint.parameters@.len() ==> (#[trigger] endpoint@.parameters[i])
                == endpoint.parameters@[i]@,
        EncodedEndpoint::Multipart(endpoint)@ == EncodedEndpointModel::Multipart(endpoint@),
        EncodedEndpoint::UrlEncoded(endpoint)@ == EncodedEndpointModel::UrlEncoded(endpoint@),
{
}

// ---------------------------------------------------------------------------------------------
// Positions in a description

/// The part of a description that is being read.
pub enum Position {
    Delimiter,
    MaxRequestSize,
    Route,
    Path,
    Parameters,
}

impl Default for Position {
    fn default() -> (position: Position)
        ensures
            position is Delimiter,
    {
        Position::Delimiter
    }
}

impl Position {
    /// The part behind the next delimiter. There is no part behind the parameters.
    pub open spec fn successor(self) -> Position {
        match self {
            Position::Delimiter => Position::MaxRequestSize,
            Position::MaxRequestSize => Position::Route,
            Position::Route => Position::Path,
            Position::Path => Position::Parameters,
            Position::Parameters => Position::Parameters,
        }
    }

    /// Moves on to the part behind the next delimiter.
    pub fn next(&mut self)
        ensures
            *final(self) == old(self).successor(),
    {
        let mut next = match self {
            Self::Delimiter => Self::MaxRequestSize,
            Self::MaxRequestSize => Self::Route,
            Self::Route => Self::Path,
            Self::Path => Self::Parameters,
            Self::Parameters => Self::Parameters,
        };

        std::mem::swap(self, &mut next);
    }

    /// The part that the last of `fields` fields belongs to.
    pub open spec fn of_field(fields: int) -> Position {
        if fields <= 0 {
            Position::Delimiter
        } else if fields == 1 {
            Position::MaxRequestSize
        } else if fields == 2 {
            Position::Route
        } else if fields == 3 {
            Position::Path
        } else {
            Position::Parameters
        }
    }
}

// ---------------------------------------------------------------------------------------------
// Parameters

/// Whether an arrow stands at `i`.
pub open spec fn arrow_at(s: Seq<char>, i: int) -> bool {
    0 <= i && i + 1 < s.len() && s[i] == '-' && s[i + 1] == '>'
}

/// Where the first arrow of `s` stands, or the length of `s` if there is none.
pub open spec fn first_arrow(s: Seq<char>) -> int
    decreases s.len(),
{
    if s.len() == 0 || arrow_at(s, 0) {
        0
    } else {
        1 + first_arrow(s.skip(1))
    }
}

/// The parameter that `s` writes: the name up to the first arrow, and from there to the next arrow
/// the validator. White space around either does not count.
pub open spec fn parameter_of(s: Seq<char>) -> ParameterModel {
    let arrow = first_arrow(s);
    ParameterModel {
        name: text::trimmed(s.take(arrow)),
        validator: if arrow < s.len() {
            let rest = s.skip(arrow + 2);
            Some(text::trimmed(rest.take(first_arrow(rest))))
        } else {
            None
        },
    }
}

proof fn lemma_first_arrow(s: Seq<char>)
    ensures
        0 <= first_arrow(s) <= s.len(),
        first_arrow(s) < s.len() ==> arrow_at(s, first_arrow(s)),
        forall|j: int| 0 <= j < first_arrow(s) ==> !arrow_at(s, j),
    decreases s.len(),
{
    if s.len() > 0 && !arrow_at(s, 0) {
        let rest = s.skip(1);
        lemma_first_arrow(rest);
        if first_arrow(rest) < rest.len() {
            assert(arrow_at(rest, first_arrow(rest)));
        }
        assert forall|j: int| 0 <= j < first_arrow(s) implies !arrow_at(s, j) by {
            if j > 0 {
                assert(!arrow_at(rest, j - 1));
            }
        }
    }
}

/// Where the first arrow of `chars[from..]` stands, or the length of `chars` if there is none.
fn find_arrow(chars: &Vec<char>, from: usize) -> (i: usize)
    requires
        from <= chars.len(),
    ensures
        i == from + first_arrow(chars@.skip(from as int)),
        from <= i <= chars.len(),
        i < chars.len() ==> i + 1 < chars.len(),
{
    let ghost rest = chars@.skip(from as int);
    proof {
        lemma_first_arrow(rest);
    }
    let mut i: usize = from;
    while i < chars.len() && !(chars.len() - i > 1 && chars[i] == '-' && chars[i + 1] == '>')
        invariant
            from <= i <= chars.len(),
            rest == chars@.skip(from as int),
            i <= from + first_arrow(rest) <= chars.len(),
            first_arrow(rest) < rest.len() ==> arrow_at(rest, first_arrow(rest)),
            forall|j: int| 0 <= j < first_arrow(rest) ==> !arrow_at(rest, j),
        decreases chars.len() - i,
    {
        assert(!arrow_at(rest, i - from));
        i += 1;
    }
    if i < chars.len() {
        assert(arrow_at(rest, i - from));
    }
    i
}

impl Endpoint {
    /// Reads a parameter: its name, and behind an arrow its validator.
    pub fn split_parameter(s: String) -> (parameter: Parameter)
        ensures
            parameter@ == parameter_of(s@),
    {
        let chars = text::characters(s.as_str());
        let arrow: usize = find_arrow(&chars, 0);
        assert(chars@.skip(0) == s@);
        assert(chars@.subrange(0, arrow as int) == s@.take(arrow as int));
        let name = text::trim(text::text_between(&chars, 0, arrow).as_str());
        let validator = if arrow < chars.len() {
            let from: usize = arrow + 2;
            let to: usize = find_arrow(&chars, from);
            let ghost rest = s@.skip(from as int);
            assert(chars@.subrange(from as int, to as int) == rest.take(first_arrow(rest)));
            Some(text::trim(text::text_between(&chars, from, to).as_str()))
        } else {
            None
        };

        Parameter { name, validator }
    }
}

// ---------------------------------------------------------------------------------------------
// Descriptions

/// Why a text describes no endpoint.
#[derive(Debug)]
pub enum EndpointError {
    /// The text is empty, so it has no delimiter.
    NoDelimiter,
    /// The first field is not a number of bytes.
    MaxRequestSize(core::num::ParseIntError),
}

/// The fields of a description: what stands between the delimiters behind the first character,
/// which is the delimiter.
pub open spec fn fields_of(dkv: Seq<char>) -> Seq<Seq<char>> {
    text::pieces(dkv.skip(1), dkv[0])
}

/// The field with the given index, which is empty where there are fewer fields.
pub open spec fn field(fields: Seq<Seq<char>>, i: int) -> Seq<char> {
    if i < fields.len() {
        fields[i]
    } else {
        Seq::empty()
    }
}

/// The parameters of a description: every field behind the command. A single field there is
/// none; it counts only once another delimiter follows it.
pub open spec fn parameters_of(fields: Seq<Seq<char>>) -> Seq<ParameterModel> {
    if fields.len() > 4 {
        fields.skip(3).map_values(|s: Seq<char>| parameter_of(s))
    } else {
        Seq::empty()
    }
}

/// Whether a description names the largest request size as a number that a `usize` can hold.
pub open spec fn has_size(dkv: Seq<char>) -> bool {
    text::number(fields_of(dkv)[0]) matches Some(n) && n <= usize::MAX
}

/// Whether `dkv` describes an endpoint.
pub open spec fn is_description(dkv: Seq<char>) -> bool {
    dkv.len() > 0 && has_size(dkv)
}

/// The endpoint that `dkv` describes.
pub open spec fn described(dkv: Seq<char>) -> EndpointModel
    recommends
        is_description(dkv),
{
    let fields = fields_of(dkv);
    EndpointModel {
        max_request_size: text::number(fields[0])->0 as usize,
        route: field(fields, 1),
        command: field(fields, 2),
        parameters: parameters_of(fields),
    }
}

/// The parameters that have been read once `fields` are the fields so far: those that a delimiter
/// ended.
spec fn ended_parameters(fields: Seq<Seq<char>>) -> Seq<ParameterModel> {
    if fields.len() > 4 {
        fields.subrange(3, fields.len() - 1).map_values(|s: Seq<char>| parameter_of(s))
    } else {
        Seq::empty()
    }
}

impl Endpoint {
    /// Reads the description of an endpoint.
    pub fn parse(dkv: String) -> (r: Result<Self, EndpointError>)
        ensures
            r matches Ok(endpoint) ==> is_description(dkv@) && endpoint@ == described(dkv@),
            r matches Err(EndpointError::NoDelimiter) ==> dkv@.len() == 0,
            r matches Err(EndpointError::MaxRequestSize(_)) ==> dkv@.len() > 0 && !has_size(dkv@),
    {
        let mut max_request_size = String::new();
        let mut route = String::new();
        let mut path = String::new();
        let mut parameter = String::new();
        let mut parameters: Vec<Parameter> = Vec::new();

        let chars = text::characters(dkv.as_str());
        let mut position = Position::default();
        if chars.len() == 0 {
            return Err(EndpointError::NoDelimiter);
        }
        let dlim = chars[0];
        position.next();

        let ghost body = dkv@.skip(1);
        assert(body.take(0) == Seq::<char>::empty());
        for i in 1..chars.len()
            invariant
                chars@ == dkv@,
                body == dkv@.skip(1),
                ({
                    let fields = text::pieces(body.take(i - 1), dlim);
                    &&& fields.len() >= 1
                    &&& position == Position::of_field(fields.len() as int)
                    &&& max_request_size@ == fields[0]
                    &&& route@ == field(fields, 1)
                    &&& path@ == field(fields, 2)
                    &&& parameter@ == if fields.len() > 3 {
                        fields.last()
                    } else {
                        Seq::empty()
                    }
                    &&& parameter_models(parameters@) == ended_parameters(fields)
                }),
        {
            let c = chars[i];
            let ghost before = text::pieces(body.take(i - 1), dlim);
            let ghost after = text::pieces(body.take(i as int), dlim);
            proof {
                assert(body.take(i as int).drop_last() == body.take(i - 1));
                assert(body.take(i as int).last() == c);
            }
            if c == dlim {
                let ghost ended = parameter_models(parameters@);
                assert(after == before.push(Seq::empty()));
                if let Position::Parameters = position {
                    let read = Self::split_parameter(parameter);
                    parameters.push(read);
                    parameter = String::new();
                    assert(parameter_models(parameters@) == ended.push(read@));
                    assert(after.subrange(3, after.len() - 1) == before.subrange(
                        3,
                        before.len() - 1,
                    ).push(before.last()));
                    assert(parameter_models(parameters@) == ended_parameters(after));
                }
                position.next();
            } else {
                assert(after == before.drop_last().push(before.last().push(c)));
                proof {
                    if after.len() > 4 {
                        assert(after.subrange(3, after.len() - 1) == before.subrange(
                            3,
                            before.len() - 1,
                        ));
                    }
                }
                match position {
                    Position::Delimiter => {
                        assert(false);
                    },
                    Position::MaxRequestSize => max_request_size.push(c),
                    Position::Route => route.push(c),
                    Position::Path => path.push(c),
                    Position::Parameters => parameter.push(c),
                }
            }
        }

        let ghost fields = fields_of(dkv@);
        assert(body.take(body.len() as int) == body);
        let ghost ended = parameter_models(parameters@);
        if let Position::Parameters = position {
            if !parameters.is_empty() {
                assert(ended.len() == parameters@.len());
                let read = Self::split_parameter(parameter);
                parameters.push(read);
                assert(parameter_models(parameters@) == ended.push(read@));
                assert(fields.skip(3) == fields.subrange(3, fields.len() - 1).push(fields.last()));
            }
        }
        assert(parameter_models(parameters@) == parameters_of(fields)) by {
            assert(parameter_models(parameters@).len() == parameters@.len());
        }

        match text::parse_usize(max_request_size.as_str()) {
            Ok(max_request_size) => Ok(
                Self { max_request_size, route, command: path, parameters },
            ),
            Err(e) => Err(EndpointError::MaxRequestSize(e)),
        }
    }

    /// Reads the description of an endpoint from a text that is one.
    pub fn from_string(dkv: String) -> (endpoint: Self)
        requires
            is_description(dkv@),
        ensures
            endpoint@ == described(dkv@),
    {
        Self::parse(dkv).unwrap()
    }
}

// ---------------------------------------------------------------------------------------------
// The delimiter

/// A description that holds `fields`, written with `delimiter`.
pub open spec fn description(delimiter: char, fields: Seq<Seq<char>>) -> Seq<char> {
    seq![delimiter] + text::joined(fields, delimiter)
}

/// Whether no field holds the character `c`.
pub open spec fn free_of(fields: Seq<Seq<char>>, c: char) -> bool {
    forall|i: int| 0 <= i < fields.len() ==> !(#[trigger] fields[i]).contains(c)
}

/// A description written with a delimiter that no field holds is read back field for field.
pub proof fn law_description_reads_back(delimiter: char, fields: Seq<Seq<char>>)
    requires
        fields.len() > 0,
        free_of(fields, delimiter),
    ensures
        fields_of(description(delimiter, fields)) == fields,
{
    text::law_pieces_of_join(fields, delimiter);
    assert(description(delimiter, fields).skip(1) == text::joined(fields, delimiter));
}

/// The choice of the delimiter does not matter: the same fields, written with either of two
/// delimiters that none of them holds, describe the same endpoint or none at all.
pub proof fn law_delimiter_is_free(first: char, second: char, fields: Seq<Seq<char>>)
    requires
        fields.len() > 0,
        free_of(fields, first),
        free_of(fields, second),
    ensures
        is_description(description(first, fields)) == is_description(description(second, fields)),
        described(description(first, fields)) == described(description(second, fields)),
{
    law_description_reads_back(first, fields);
    law_description_reads_back(second, fields);
}

/// The fields of a description of the given endpoint.
pub open spec fn endpoint_fields(
    size: usize,
    route: Seq<char>,
    command: Seq<char>,
    parameters: Seq<Seq<char>>,
) -> Seq<Seq<char>> {
    seq![text::decimal(size as int), route, command] + parameters
}

/// A description of an endpoint, written with a delimiter that no field holds, is read back as that
/// endpoint, with the parameters in their order. A single parameter is lost.
pub proof fn law_endpoint_reads_back(
    delimiter: char,
    size: usize,
    route: Seq<char>,
    command: Seq<char>,
    parameters: Seq<Seq<char>>,
)
    requires
        free_of(endpoint_fields(size, route, command, parameters), delimiter),
    ensures
        ({
            let dkv = description(delimiter, endpoint_fields(size, route, command, parameters));
            &&& is_description(dkv)
            &&& described(dkv) == EndpointModel {
                max_request_size: size,
                route,
                command,
                parameters: if parameters.len() == 1 {
                    Seq::empty()
                } else {
                    parameters.map_values(|s: Seq<char>| parameter_of(s))
                },
            }
        }),
{
    let fields = endpoint_fields(size, route, command, parameters);
    law_description_reads_back(delimiter, fields);
    text::lemma_number_of_decimal(size as nat);
    assert(fields.skip(3) == parameters);
    assert(described(description(delimiter, fields)).parameters == if parameters.len() == 1 {
        Seq::empty()
    } else {
        parameters.map_values(|s: Seq<char>| parameter_of(s))
    });
}

/// What stands between the delimiters of a description is the size, the route, the command and the
/// parameters of the endpoint, field for field, and nothing where there are fewer fields. The text is
/// a description if and only if the first field writes a size. One field behind the command is no
/// parameter; of more, each is one, in their order.
pub proof fn law_description(delimiter: char, fields: Seq<Seq<char>>)
    requires
        fields.len() > 0,
        forall|i: int| 0 <= i < fields.len() ==> !(#[trigger] fields[i]).contains(delimiter),
    ensures
        ({
            let dkv = seq![delimiter] + text::joined(fields, delimiter);
            let endpoint = described(dkv);
            &&& is_description(dkv) <==> (text::number(fields[0]) matches Some(n) && n
                <= usize::MAX)
            &&& is_description(dkv) <==> has_size(dkv)
            &&& is_description(dkv) ==> text::number(fields[0]) == Some(
                endpoint.max_request_size as nat,
            )
            &&& endpoint.route == if fields.len() > 1 {
                fields[1]
            } else {
                Seq::empty()
            }
            &&& endpoint.command == if fields.len() > 2 {
                fields[2]
            } else {
                Seq::empty()
            }
            &&& endpoint.parameters.len() == if fields.len() > 4 {
                fields.len() - 3
            } else {
                0
            }
            &&& forall|i: int|
                0 <= i < endpoint.parameters.len() ==> (#[trigger] endpoint.parameters[i])
                    == parameter_of(fields[i + 3])
        }),
        !is_description(Seq::empty()),
{
    assert(free_of(fields, delimiter));
    law_description_reads_back(delimiter, fields);
    let dkv = seq![delimiter] + text::joined(fields, delimiter);
    assert(dkv == description(delimiter, fields));
    let endpoint = described(dkv);
    assert forall|i: int| 0 <= i < endpoint.parameters.len() implies (
    #[trigger] endpoint.parameters[i]) == parameter_of(fields[i + 3]) by {
        assert(fields.skip(3)[i] == fields[i + 3]);
    }
}

/// Every text with a character in it is its first character and then fields, none of which holds
/// that character, with that character between them.
pub proof fn law_every_text_has_fields(dkv: Seq<char>)
    requires
        dkv.len() > 0,
    ensures
        fields_of(dkv).len() > 0,
        dkv == seq![dkv[0]] + text::joined(fields_of(dkv), dkv[0]),
        forall|i: int|
            0 <= i < fields_of(dkv).len() ==> !(#[trigger] fields_of(dkv)[i]).contains(dkv[0]),
{
    text::lemma_pieces_len(dkv.skip(1), dkv[0]);
    text::law_join_of_pieces(dkv.skip(1), dkv[0]);
    text::law_pieces_hold_no_delimiter(dkv.skip(1), dkv[0]);
    assert(dkv == seq![dkv[0]] + dkv.skip(1));
}

// ---------------------------------------------------------------------------------------------
// The arrow

/// Whether a text holds no arrow.
pub open spec fn arrowless(s: Seq<char>) -> bool {
    forall|i: int| !(#[trigger] arrow_at(s, i))
}

/// A text without an arrow is a name without a validator. A name and a validator with an arrow
/// between them are read back, white space around either aside, and whatever follows another arrow
/// does not count.
pub proof fn law_parameter_reads_back(name: Seq<char>, validator: Seq<char>, more: Seq<char>)
    requires
        forall|i: int| 0 <= i < name.len() - 1 ==> name[i] != '-' || #[trigger] name[i + 1] != '>',
        forall|i: int|
            0 <= i < validator.len() - 1 ==> validator[i] != '-' || #[trigger] validator[i + 1]
                != '>',
    ensures
        parameter_of(name) == (ParameterModel { name: text::trimmed(name), validator: None }),
        parameter_of(name + seq!['-', '>'] + validator) == (ParameterModel {
            name: text::trimmed(name),
            validator: Some(text::trimmed(validator)),
        }),
        parameter_of(name + seq!['-', '>'] + validator + seq!['-', '>'] + more) == (
        ParameterModel {
            name: text::trimmed(name),
            validator: Some(text::trimmed(validator)),
        }),
{
    assert(arrowless(name)) by {
        assert forall|i: int| !(#[trigger] arrow_at(name, i)) by {
            if arrow_at(name, i) {
                assert(name[i + 1] == '>');
            }
        }
    }
    assert(arrowless(validator)) by {
        assert forall|i: int| !(#[trigger] arrow_at(validator, i)) by {
            if arrow_at(validator, i) {
                assert(validator[i + 1] == '>');
            }
        }
    }
    lemma_first_arrow(name);
    lemma_first_arrow(validator);
    assert(name.take(name.len() as int) == name);
    assert(validator.take(validator.len() as int) == validator);

    let short = name + seq!['-', '>'] + validator;
    lemma_arrow_found(name, validator);
    assert(short.take(name.len() as int) == name);
    assert(short.skip(name.len() as int + 2) == validator);

    let rest = validator + seq!['-', '>'] + more;
    let long = name + seq!['-', '>'] + validator + seq!['-', '>'] + more;
    assert(long == name + seq!['-', '>'] + rest);
    lemma_arrow_found(name, rest);
    lemma_arrow_found(validator, more);
    assert(long.take(name.len() as int) == name);
    assert(long.skip(name.len() as int + 2) == rest);
    assert(rest.take(validator.len() as int) == validator);
}

proof fn lemma_arrow_found(head: Seq<char>, tail: Seq<char>)
    requires
        arrowless(head),
    ensures
        first_arrow(head + seq!['-', '>'] + tail) == head.len(),
{
    let s = head + seq!['-', '>'] + tail;
    lemma_first_arrow(s);
    let i = first_arrow(s);
    assert(arrow_at(s, head.len() as int));
    if i < head.len() {
        assert(arrow_at(s, i));
        assert(!arrow_at(head, i));
    }
}

} // verus!
