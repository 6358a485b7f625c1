//! Files that import others publicly: no file may import itself in this way, not by way of others
//! either. The protobuf library follows such imports without end.
use crate::message::{find_field, Datum, Message, Scalar};
use crate::schema::FILE_NAME;
use crate::text::text_eq;
use vstd::prelude::*;

verus! {

use crate::message::{
    field_index_divides, field_value, list_view, message_views,
    value_views, with_field, DatumV, MessageV,
};
use crate::schema::{
    messages_view, normalized_field_list, normalized_file, normalized_files,
    normalized_message_list, normalized_package, normalized_services, shown_name, FILE_EXTENSION,
    FILE_MESSAGE, FILE_PACKAGE, FILE_SERVICE,
};
use crate::determinism::same_place;
use crate::sound::{values_in, with_field_keeps};

/// The names of the files that a file imports.
pub const FILE_DEPENDENCY: u32 = 3;

/// The places among these of the files that it imports publicly.
pub const FILE_PUBLIC: u32 = 10;

/// Whether a place among dependencies is that of a file of this name.
pub open spec fn is_import(dependencies: Seq<DatumV>, place: DatumV, name: Seq<char>) -> bool {
    match place {
        DatumV::Scalar(Scalar::I32(d)) => 0 <= d < dependencies.len() && dependencies[d as int]
            == DatumV::Text(name),
        _ => false,
    }
}

/// Whether a file imports another one publicly.
pub open spec fn imports(f: MessageV, g: MessageV) -> bool {
    exists|i: int|
        0 <= i < values_in(f, FILE_PUBLIC).len() && is_import(
            values_in(f, FILE_DEPENDENCY),
            #[trigger] values_in(f, FILE_PUBLIC)[i],
            shown_name(g),
        )
}

/// Whether this many public imports follow each other, from a file on.
pub open spec fn chain(files: Seq<MessageV>, f: MessageV, n: nat) -> bool
    decreases n,
{
    n == 0 || exists|j: int|
        0 <= j < files.len() && imports(f, #[trigger] files[j]) && chain(
            files,
            files[j],
            (n - 1) as nat,
        )
}

/// Whether no more public imports follow each other than there are files, so none without end.
pub open spec fn imports_end(files: Seq<MessageV>) -> bool {
    forall|i: int| 0 <= i < files.len() ==> !chain(files, #[trigger] files[i], files.len())
}

proof fn chains_shrink(files: Seq<MessageV>, f: MessageV, n: nat, k: nat)
    requires
        chain(files, f, n),
        k <= n,
    ensures
        chain(files, f, k),
    decreases k,
{
    if k > 0 {
        let j = choose|j: int|
            0 <= j < files.len() && imports(f, #[trigger] files[j]) && chain(
                files,
                files[j],
                (n - 1) as nat,
            );
        chains_shrink(files, files[j], (n - 1) as nat, (k - 1) as nat);
    }
}

fn list_in(m: &Message, number: u32) -> (r: Option<&Vec<Datum>>)
    ensures
        match r {
            Some(l) => values_in(m@, number) == list_view(l@),
            None => values_in(m@, number) == Seq::<DatumV>::empty(),
        },
{
    broadcast use message_views;
    broadcast use value_views;

    let i = find_field(&m.fields, number);
    if i < m.fields.len() {
        if let Datum::List(l) = &m.fields[i].1 {
            return Some(l);
        }
    }
    None
}

fn name_of(f: &Message) -> (r: String)
    ensures
        r@ == shown_name(f@),
{
    broadcast use message_views;
    broadcast use value_views;

    let i = find_field(&f.fields, FILE_NAME);
    if i < f.fields.len() {
        if let Datum::Text(t) = &f.fields[i].1 {
            return t.clone();
        }
    }
    let r = String::new();
    assert(r@ =~= Seq::empty());
    r
}

fn place_is(dependencies: &Vec<Datum>, place: &Datum, name: &str) -> (r: bool)
    ensures
        r == is_import(list_view(dependencies@), place@, name@),
{
    broadcast use value_views;

    let ghost all = list_view(dependencies@);
    if let Datum::Scalar(Scalar::I32(d)) = place {
        if 0 <= *d && (*d as usize) < dependencies.len() {
            let at = *d as usize;
            assert(all[at as int] == dependencies@[at as int]@);
            if let Datum::Text(t) = &dependencies[at] {
                return text_eq(t.as_str(), name);
            }
        }
    }
    false
}

fn does_import(f: &Message, g: &Message) -> (r: bool)
    ensures
        r == imports(f@, g@),
{
    let ghost places = values_in(f@, FILE_PUBLIC);
    let ghost names = values_in(f@, FILE_DEPENDENCY);
    if let Some(l) = list_in(f, FILE_PUBLIC) {
        if let Some(dependencies) = list_in(f, FILE_DEPENDENCY) {
            let name = name_of(g);
            let mut i: usize = 0;
            while i < l.len()
                invariant
                    i <= l@.len(),
                    places == list_view(l@),
                    places == values_in(f@, FILE_PUBLIC),
                    names == list_view(dependencies@),
                    names == values_in(f@, FILE_DEPENDENCY),
                    name@ == shown_name(g@),
                    forall|k: int| 0 <= k < i ==> !is_import(names, #[trigger] places[k], name@),
                decreases l@.len() - i,
            {
                assert(places[i as int] == l@[i as int]@);
                if place_is(dependencies, &l[i], name.as_str()) {
                    return true;
                }
                i += 1;
            }
        }
    }
    false
}

fn goes_on(files: &Vec<Message>, alive: &Vec<bool>, i: usize, Ghost(n): Ghost<nat>) -> (r: bool)
    requires
        i < files@.len(),
        alive@.len() == files@.len(),
        forall|k: int|
            0 <= k < alive@.len() ==> alive@[k] == chain(
                messages_view(files@),
                #[trigger] messages_view(files@)[k],
                n,
            ),
    ensures
        r == chain(messages_view(files@), messages_view(files@)[i as int], n + 1),
{
    let ghost all = messages_view(files@);
    let mut j: usize = 0;
    while j < files.len()
        invariant
            j <= files@.len(),
            i < files@.len(),
            all == messages_view(files@),
            alive@.len() == files@.len(),
            forall|k: int|
                0 <= k < alive@.len() ==> alive@[k] == chain(all, #[trigger] all[k], n),
            forall|k: int|
                0 <= k < j ==> !(imports(all[i as int], #[trigger] all[k]) && chain(
                    all,
                    all[k],
                    n,
                )),
        decreases files@.len() - j,
    {
        assert(all[j as int] == files@[j as int]@);
        assert(all[i as int] == files@[i as int]@);
        if alive[j] && does_import(&files[i], &files[j]) {
            return true;
        }
        j += 1;
    }
    false
}

/// Checks that public imports come to an end.
pub fn check_imports(files: &Vec<Message>) -> (r: bool)
    ensures
        r == imports_end(messages_view(files@)),
{
    let ghost all = messages_view(files@);
    let mut alive: Vec<bool> = Vec::new();
    let mut i: usize = 0;
    while i < files.len()
        invariant
            i <= files@.len(),
            alive@.len() == i,
            forall|k: int| 0 <= k < i ==> alive@[k],
        decreases files@.len() - i,
    {
        alive.push(true);
        i += 1;
    }
    let mut n: usize = 0;
    while n < files.len()
        invariant
            n <= files@.len(),
            all == messages_view(files@),
            alive@.len() == files@.len(),
            forall|k: int|
                0 <= k < alive@.len() ==> alive@[k] == chain(all, #[trigger] all[k], n as nat),
        decreases files@.len() - n,
    {
        let mut next: Vec<bool> = Vec::new();
        let mut some = false;
        let mut k: usize = 0;
        while k < files.len()
            invariant
                k <= files@.len(),
                all == messages_view(files@),
                alive@.len() == files@.len(),
                forall|l: int|
                    0 <= l < alive@.len() ==> alive@[l] == chain(all, #[trigger] all[l], n as nat),
                next@.len() == k,
                forall|l: int|
                    0 <= l < k ==> next@[l] == chain(all, #[trigger] all[l], (n + 1) as nat),
                !some ==> forall|l: int| 0 <= l < k ==> !next@[l],
            decreases files@.len() - k,
        {
            let on = goes_on(files, &alive, k, Ghost(n as nat));
            if on {
                some = true;
            }
            next.push(on);
            k += 1;
        }
        if !some {
            assert forall|l: int| 0 <= l < all.len() implies !chain(
                all,
                #[trigger] all[l],
                all.len(),
            ) by {
                if chain(all, all[l], all.len()) {
                    chains_shrink(all, all[l], all.len(), (n + 1) as nat);
                    assert(next@[l] == chain(all, all[l], (n + 1) as nat));
                }
            }
            return true;
        }
        alive = next;
        n += 1;
    }
    if files.len() == 0 {
        return true;
    }
    let mut k: usize = 0;
    while k < files.len()
        invariant
            k <= files@.len(),
            all == messages_view(files@),
            alive@.len() == files@.len(),
            forall|l: int|
                0 <= l < alive@.len() ==> alive@[l] == chain(all, #[trigger] all[l], all.len()),
            forall|l: int| 0 <= l < k ==> !alive@[l],
        decreases files@.len() - k,
    {
        if alive[k] {
            assert(alive@[k as int] == chain(all, all[k as int], all.len()));
            return false;
        }
        k += 1;
    }
    true
}

proof fn import_fields_stay(f: MessageV, structural: bool, number: u32)
    requires
        number == FILE_NAME || number == FILE_DEPENDENCY || number == FILE_PUBLIC,
    ensures
        field_value(normalized_file(f, structural).fields, number) == field_value(
            f.fields,
            number,
        ),
{
    let g = Seq::new(
        f.fields.len(),
        |i: int|
            {
                let number = f.fields[i].0;
                (
                    number,
                    if number == FILE_MESSAGE {
                        normalized_message_list(f.fields[i].1, structural)
                    } else if number == FILE_EXTENSION {
                        normalized_field_list(f.fields[i].1, structural)
                    } else if number == FILE_SERVICE {
                        normalized_services(f.fields[i].1, structural)
                    } else {
                        f.fields[i].1
                    },
                )
            },
    );
    same_place(f.fields, g, number);
    field_index_divides(f.fields, number);
    if structural {
        let package = DatumV::Text(normalized_package(field_value(f.fields, FILE_PACKAGE)));
        with_field_keeps(g, FILE_PACKAGE, package, number);
        assert(normalized_file(f, structural).fields == with_field(g, FILE_PACKAGE, package));
    } else {
        assert(normalized_file(f, structural).fields == g);
    }
}

proof fn same_imports(f: MessageV, g: MessageV, structural: bool)
    ensures
        imports(normalized_file(f, structural), normalized_file(g, structural)) == imports(f, g),
{
    import_fields_stay(f, structural, FILE_DEPENDENCY);
    import_fields_stay(f, structural, FILE_PUBLIC);
    import_fields_stay(g, structural, FILE_NAME);
    let n = normalized_file(f, structural);
    assert(values_in(n, FILE_PUBLIC) == values_in(f, FILE_PUBLIC));
    assert(values_in(n, FILE_DEPENDENCY) == values_in(f, FILE_DEPENDENCY));
    assert(shown_name(normalized_file(g, structural)) == shown_name(g));
}

proof fn same_chain(files: Seq<MessageV>, structural: bool, f: MessageV, n: nat)
    requires
        chain(normalized_files(files, structural), normalized_file(f, structural), n),
    ensures
        chain(files, f, n),
    decreases n,
{
    if n > 0 {
        let copy = normalized_files(files, structural);
        let j = choose|j: int|
            0 <= j < copy.len() && imports(
                normalized_file(f, structural),
                #[trigger] copy[j],
            ) && chain(copy, copy[j], (n - 1) as nat);
        same_imports(f, files[j], structural);
        same_chain(files, structural, files[j], (n - 1) as nat);
    }
}

/// Public imports come to an end in the private copy if they do in the schema.
pub proof fn private_imports_end(files: Seq<MessageV>, structural: bool)
    requires
        imports_end(files),
    ensures
        imports_end(normalized_files(files, structural)),
{
    let copy = normalized_files(files, structural);
    assert forall|i: int| 0 <= i < copy.len() implies !chain(
        copy,
        #[trigger] copy[i],
        copy.len(),
    ) by {
        if chain(copy, copy[i], copy.len()) {
            same_chain(files, structural, files[i], copy.len());
            assert(!chain(files, files[i], files.len()));
        }
    }
}

} // verus!
