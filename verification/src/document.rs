use vstd::prelude::*;

verus! {

/// A scalar that a status field can hold.
#[derive(Clone, Debug, PartialEq, Eq)]
pub enum Value {
    Bool(bool),
    Number(i64),
    Text(String),
}

/// A field value as a mathematical value.
pub enum ValueView {
    Bool(bool),
    Number(i64),
    Text(Seq<char>),
}

impl View for Value {
    type V = ValueView;

    open spec fn view(&self) -> ValueView {
        match self {
            Value::Bool(b) => ValueView::Bool(*b),
            Value::Number(n) => ValueView::Number(*n),
            Value::Text(s) => ValueView::Text(s@),
        }
    }
}

impl Value {
    /// A copy that holds the same value.
    pub fn duplicate(&self) -> (out: Value)
        ensures
            out@ == self@,
    {
        match self {
            Value::Bool(b) => Value::Bool(*b),
            Value::Number(n) => Value::Number(*n),
            Value::Text(s) => Value::Text(s.clone()),
        }
    }
}

/// One named field of a document.
#[derive(Clone, Debug, PartialEq, Eq)]
pub struct Field {
    pub name: String,
    pub value: Value,
}

/// The fields of a document as a map from name to value.
pub type Fields = Map<Seq<char>, ValueView>;

/// What a merge patch makes of `base`: every field that `patch` names takes the patch's value,
/// every other field of `base` stays as it is, and nothing else appears.
pub open spec fn merged(base: Fields, patch: Fields) -> Fields {
    Map::new(
        |k: Seq<char>| base.contains_key(k) || patch.contains_key(k),
        |k: Seq<char>|
            if patch.contains_key(k) {
                patch[k]
            } else {
                base[k]
            },
    )
}

/// `name` is the name of the field at index `i`.
pub open spec fn named_at(fields: Seq<Field>, name: Seq<char>, i: int) -> bool {
    0 <= i < fields.len() && fields[i].name@ == name
}

/// No two fields share a name.
pub open spec fn distinct_names(fields: Seq<Field>) -> bool {
    forall|i: int, j: int|
        0 <= i < fields.len() && 0 <= j < fields.len() && i != j ==> fields[i].name@
            != fields[j].name@
}

/// The map that a list of fields with distinct names stands for.
pub open spec fn fields_of(fields: Seq<Field>) -> Fields {
    Map::new(
        |k: Seq<char>| exists|i: int| named_at(fields, k, i),
        |k: Seq<char>| fields[choose|i: int| named_at(fields, k, i)].value@,
    )
}

proof fn lemma_field_at(fields: Seq<Field>, i: int)
    requires
        distinct_names(fields),
        0 <= i < fields.len(),
    ensures
        fields_of(fields).contains_key(fields[i].name@),
        fields_of(fields)[fields[i].name@] == fields[i].value@,
{
    let k = fields[i].name@;
    assert(named_at(fields, k, i));
    let c = choose|c: int| named_at(fields, k, c);
    assert(named_at(fields, k, c));
    assert(c == i);
}

proof fn lemma_absent(fields: Seq<Field>, name: Seq<char>)
    requires
        forall|i: int| 0 <= i < fields.len() ==> fields[i].name@ != name,
    ensures
        !fields_of(fields).contains_key(name),
{
    if fields_of(fields).contains_key(name) {
        let c = choose|c: int| named_at(fields, name, c);
        assert(named_at(fields, name, c));
    }
}

proof fn lemma_push(fields: Seq<Field>, field: Field)
    requires
        distinct_names(fields),
        forall|i: int| 0 <= i < fields.len() ==> fields[i].name@ != field.name@,
    ensures
        distinct_names(fields.push(field)),
        fields_of(fields.push(field)) == fields_of(fields).insert(field.name@, field.value@),
{
    let next = fields.push(field);
    let want = fields_of(fields).insert(field.name@, field.value@);
    assert(distinct_names(next));
    assert forall|k: Seq<char>| fields_of(next).contains_key(k) implies want.contains_key(k) by {
        let c = choose|c: int| named_at(next, k, c);
        if c < fields.len() {
            assert(named_at(fields, k, c));
        }
    }
    assert forall|k: Seq<char>| want.contains_key(k) implies fields_of(next).contains_key(k) by {
        if k == field.name@ {
            assert(named_at(next, k, fields.len() as int));
        } else {
            let c = choose|c: int| named_at(fields, k, c);
            assert(named_at(next, k, c));
        }
    }
    assert forall|k: Seq<char>| want.contains_key(k) implies fields_of(next)[k] == want[k] by {
        if k == field.name@ {
            lemma_field_at(next, fields.len() as int);
        } else {
            let c = choose|c: int| named_at(fields, k, c);
            lemma_field_at(fields, c);
            lemma_field_at(next, c);
        }
    }
    assert(fields_of(next) =~= want);
}

proof fn lemma_replace(fields: Seq<Field>, i: int, field: Field)
    requires
        distinct_names(fields),
        0 <= i < fields.len(),
        fields[i].name@ == field.name@,
    ensures
        distinct_names(fields.update(i, field)),
        fields_of(fields.update(i, field)) == fields_of(fields).insert(field.name@, field.value@),
{
    let next = fields.update(i, field);
    let want = fields_of(fields).insert(field.name@, field.value@);
    assert(distinct_names(next)) by {
        assert forall|a: int, b: int|
            0 <= a < next.len() && 0 <= b < next.len() && a != b implies next[a].name@
            != next[b].name@ by {
            assert(next[a].name@ == fields[a].name@);
            assert(next[b].name@ == fields[b].name@);
        }
    }
    assert forall|k: Seq<char>| fields_of(next).contains_key(k) implies want.contains_key(k) by {
        let c = choose|c: int| named_at(next, k, c);
        assert(next[c].name@ == fields[c].name@);
        assert(named_at(fields, k, c));
    }
    assert forall|k: Seq<char>| want.contains_key(k) implies fields_of(next).contains_key(k) by {
        if k == field.name@ {
            assert(named_at(next, k, i));
        } else {
            let c = choose|c: int| named_at(fields, k, c);
            assert(next[c].name@ == fields[c].name@);
            assert(named_at(next, k, c));
        }
    }
    assert forall|k: Seq<char>| want.contains_key(k) implies fields_of(next)[k] == want[k] by {
        if k == field.name@ {
            lemma_field_at(next, i);
        } else {
            let c = choose|c: int| named_at(fields, k, c);
            lemma_field_at(fields, c);
            assert(next[c].name@ == fields[c].name@);
            lemma_field_at(next, c);
        }
    }
    assert(fields_of(next) =~= want);
}

/// A flat document of named scalar fields, such as the status of an object or a patch to it.
#[derive(Clone, Debug, PartialEq, Eq)]
pub struct Document {
    fields: Vec<Field>,
}

impl View for Document {
    type V = Fields;

    closed spec fn view(&self) -> Fields {
        fields_of(self.fields@)
    }
}

impl Document {
    /// No name occurs twice. Every constructor gives such a document and every method keeps it so.
    pub closed spec fn wf(&self) -> bool {
        distinct_names(self.fields@)
    }

    /// The document without any field.
    pub fn new() -> (out: Document)
        ensures
            out.wf(),
            out@ == Fields::empty(),
    {
        let out = Document { fields: Vec::new() };
        proof {
            lemma_absent_all(out.fields@);
        }
        out
    }

    fn find(&self, name: &String) -> (out: Option<usize>)
        ensures
            match out {
                Some(i) => named_at(self.fields@, name@, i as int),
                None => forall|i: int| 0 <= i < self.fields@.len() ==> self.fields@[i].name@ != name@,
            },
    {
        let mut i: usize = 0;
        while i < self.fields.len()
            invariant
                i <= self.fields.len(),
                forall|j: int| 0 <= j < i ==> self.fields@[j].name@ != name@,
            decreases self.fields.len() - i,
        {
            if self.fields[i].name == *name {
                return Some(i);
            }
            i += 1;
        }
        None
    }

    /// The value of the field `name`; `None` where the document has no such field.
    pub fn get(&self, name: &str) -> (out: Option<Value>)
        requires
            self.wf(),
        ensures
            match out {
                Some(v) => self@.contains_key(name@) && self@[name@] == v@,
                None => !self@.contains_key(name@),
            },
    {
        let wanted = name.to_string();
        match self.find(&wanted) {
            Some(i) => {
                proof {
                    lemma_field_at(self.fields@, i as int);
                }
                Some(self.fields[i].value.duplicate())
            },
            None => {
                proof {
                    lemma_absent(self.fields@, name@);
                }
                None
            },
        }
    }

    /// Sets the field `name` to `value`, whether or not the document had it; no other field
    /// changes.
    pub fn set(&mut self, name: &str, value: Value)
        requires
            old(self).wf(),
        ensures
            final(self).wf(),
            final(self)@ == old(self)@.insert(name@, value@),
    {
        let field = Field { name: name.to_string(), value };
        match self.find(&field.name) {
            Some(i) => {
                proof {
                    lemma_replace(self.fields@, i as int, field);
                }
                self.fields.set(i, field);
            },
            None => {
                proof {
                    lemma_push(self.fields@, field);
                }
                self.fields.push(field);
            },
        }
    }

    /// Merges `patch` into the document: each field of `patch` is set, nothing else changes.
    pub fn merge(&mut self, patch: &Document)
        requires
            old(self).wf(),
            patch.wf(),
        ensures
            final(self).wf(),
            final(self)@ == merged(old(self)@, patch@),
    {
        let mut i: usize = 0;
        while i < patch.fields.len()
            invariant
                i <= patch.fields.len(),
                self.wf(),
                patch.wf(),
                self@ == merged(old(self)@, fields_of(patch.fields@.take(i as int))),
            decreases patch.fields.len() - i,
        {
            let ghost before = self@;
            let ghost taken = patch.fields@.take(i as int);
            let ghost field = patch.fields@[i as int];
            proof {
                assert(distinct_names(taken));
                assert forall|j: int| 0 <= j < taken.len() implies taken[j].name@
                    != field.name@ by {
                    assert(taken[j] == patch.fields@[j]);
                }
                lemma_push(taken, field);
                assert(taken.push(field) =~= patch.fields@.take(i + 1));
            }
            self.set(patch.fields[i].name.as_str(), patch.fields[i].value.duplicate());
            assert(self@ =~= merged(old(self)@, fields_of(patch.fields@.take(i + 1))));
            i += 1;
        }
        assert(patch.fields@.take(i as int) =~= patch.fields@);
    }

    /// Copies of the fields, each once, in the order they were first set.
    pub fn entries(&self) -> (out: Vec<Field>)
        requires
            self.wf(),
        ensures
            distinct_names(out@),
            fields_of(out@) == self@,
    {
        let mut out: Vec<Field> = Vec::new();
        let mut i: usize = 0;
        while i < self.fields.len()
            invariant
                i <= self.fields.len(),
                out@.len() == i,
                forall|j: int|
                    0 <= j < i ==> out@[j].name@ == self.fields@[j].name@ && out@[j].value@
                        == self.fields@[j].value@,
            decreases self.fields.len() - i,
        {
            out.push(
                Field {
                    name: self.fields[i].name.clone(),
                    value: self.fields[i].value.duplicate(),
                },
            );
            i += 1;
        }
        proof {
            lemma_same_fields(out@, self.fields@);
        }
        out
    }
}

proof fn lemma_absent_all(fields: Seq<Field>)
    requires
        fields.len() == 0,
    ensures
        fields_of(fields) == Fields::empty(),
{
    assert forall|k: Seq<char>| !fields_of(fields).contains_key(k) by {
        lemma_absent(fields, k);
    }
    assert(fields_of(fields) =~= Fields::empty());
}

proof fn lemma_same_fields(a: Seq<Field>, b: Seq<Field>)
    requires
        a.len() == b.len(),
        distinct_names(b),
        forall|j: int| 0 <= j < a.len() ==> a[j].name@ == b[j].name@ && a[j].value@ == b[j].value@,
    ensures
        distinct_names(a),
        fields_of(a) == fields_of(b),
{
    assert(distinct_names(a)) by {
        assert forall|i: int, j: int|
            0 <= i < a.len() && 0 <= j < a.len() && i != j implies a[i].name@ != a[j].name@ by {
            assert(a[i].name@ == b[i].name@);
            assert(a[j].name@ == b[j].name@);
        }
    }
    assert forall|k: Seq<char>| fields_of(a).contains_key(k) implies fields_of(b).contains_key(
        k,
    ) by {
        let c = choose|c: int| named_at(a, k, c);
        assert(named_at(b, k, c));
    }
    assert forall|k: Seq<char>| fields_of(a).contains_key(k) implies fields_of(a)[k] == fields_of(
        b,
    )[k] by {
        let c = choose|c: int| named_at(a, k, c);
        assert(named_at(b, k, c));
        lemma_field_at(a, c);
        lemma_field_at(b, c);
    }
    assert forall|k: Seq<char>| fields_of(b).contains_key(k) implies fields_of(a).contains_key(
        k,
    ) by {
        let c = choose|c: int| named_at(b, k, c);
        assert(named_at(a, k, c));
    }
    assert(fields_of(a) =~= fields_of(b));
}

/// A merge patch is partial: a field that the patch does not name is in the result exactly when it
/// was in the base, with the value it had there; a field that the patch names has the patch's
/// value.
pub proof fn lemma_merge_is_partial(base: Fields, patch: Fields, name: Seq<char>)
    ensures
        !patch.contains_key(name) ==> (merged(base, patch).contains_key(name)
            <==> base.contains_key(name)),
        !patch.contains_key(name) && base.contains_key(name) ==> merged(base, patch)[name]
            == base[name],
        patch.contains_key(name) ==> merged(base, patch).contains_key(name) && merged(
            base,
            patch,
        )[name] == patch[name],
{
}

/// Merging the same patch a second time changes nothing.
pub proof fn lemma_merge_twice(base: Fields, patch: Fields)
    ensures
        merged(merged(base, patch), patch) == merged(base, patch),
{
    assert(merged(merged(base, patch), patch) =~= merged(base, patch));
}

/// An empty patch changes nothing.
pub proof fn lemma_merge_nothing(base: Fields)
    ensures
        merged(base, Fields::empty()) == base,
{
    assert(merged(base, Fields::empty()) =~= base);
}

} // verus!
