//! The built-in catalogue of core library classes and the index over it.

use vstd::prelude::*;
use crate::docs::{
    class_before, is_class_pos, lemma_class_index_complete, lemma_class_index_entry,
    lemma_method_index_complete, names_class, qualified_name, Class, DocsIndex, JavaDocs, Method,
    Overload, Package,
};

verus! {

/// An owned copy of `s`.
fn owned(s: &str) -> (r: String)
    ensures
        r@ == s@,
{
    s.to_owned()
}

/// An overload that is not deprecated.
fn overload(signature: &str, description: &str) -> (r: Overload)
    ensures
        r.signature@ == signature@,
        r.description@ == description@,
        !r.deprecated,
        overload_view(r) == plain(signature@, description@),
{
    Overload { signature: owned(signature), description: owned(description), deprecated: false }
}

/// A method with the given overloads.
fn method(name: &str, overloads: Vec<Overload>) -> (r: Method)
    ensures
        r.name@ == name@,
        r.overloads == overloads,
        method_view(r) == many(name@, overload_views(overloads@)),
{
    Method { name: owned(name), overloads }
}

/// A method with one overload.
fn single(name: &str, signature: &str, description: &str) -> (r: Method)
    ensures
        r.name@ == name@,
        r.overloads@.len() == 1,
        method_view(r) == one(name@, signature@, description@),
{
    let overloads = vec![overload(signature, description)];
    assert(overload_views(overloads@) =~= seq![plain(signature@, description@)]);
    method(name, overloads)
}

/// A class with the given methods.
fn class(name: &str, methods: Vec<Method>) -> (r: Class)
    ensures
        r.name@ == name@,
        r.methods == methods,
        class_view(r) == a_class(name@, method_views(methods@)),
{
    Class { name: owned(name), methods }
}

/// A package with the given classes.
fn package(name: &str, description: &str, classes: Vec<Class>) -> (r: Package)
    ensures
        r.package@ == name@,
        r.description@ == description@,
        r.classes == classes,
        package_view(r) == a_package(name@, description@, class_views(classes@)),
{
    Package { package: owned(name), description: owned(description), classes }
}

/// `java.lang.Object`.
fn object_class() -> (r: Class)
    ensures
        r.name@ == "Object"@,
        class_view(r) == object_catalogue(),
{
    let ghost want = object_catalogue();
    let methods = vec![
        single("toString", "String toString()", "Returns a string representation of the object."),
        single("equals", "boolean equals(Object obj)", "Indicates whether some other object is equal to this one."),
        single("hashCode", "int hashCode()", "Returns a hash code value for the object."),
        single("getClass", "Class<?> getClass()", "Returns the runtime class of this object."),
    ];
    assert(method_views(methods@) =~= want.methods);
    class("Object", methods)
}

/// `java.lang.String`.
fn string_class() -> (r: Class)
    ensures
        r.name@ == "String"@,
        class_view(r) == string_catalogue(),
{
    let ghost want = string_catalogue();
    let substring = vec![
        overload("String substring(int beginIndex)", "Returns a string that is a substring of this string."),
        overload("String substring(int beginIndex, int endIndex)", "Returns a string that is a substring of this string."),
    ];
    assert(overload_views(substring@) =~= want.methods[2].overloads);
    let index_of = vec![
        overload("int indexOf(int ch)", "Returns the index of the first occurrence of the specified character."),
        overload("int indexOf(String str)", "Returns the index of the first occurrence of the specified substring."),
    ];
    assert(overload_views(index_of@) =~= want.methods[3].overloads);
    let value_of = vec![
        overload("static String valueOf(int i)", "Returns the string representation of the int argument."),
        overload("static String valueOf(Object obj)", "Returns the string representation of the Object argument."),
    ];
    assert(overload_views(value_of@) =~= want.methods[17].overloads);
    let methods = vec![
        single("length", "int length()", "Returns the length of this string."),
        single("charAt", "char charAt(int index)", "Returns the char value at the specified index."),
        method("substring", substring),
        method("indexOf", index_of),
        single("equals", "boolean equals(Object anObject)", "Compares this string to the specified object."),
        single("equalsIgnoreCase", "boolean equalsIgnoreCase(String anotherString)", "Compares this String to another String, ignoring case considerations."),
        single("contains", "boolean contains(CharSequence s)", "Returns true if and only if this string contains the specified sequence of char values."),
        single("isEmpty", "boolean isEmpty()", "Returns true if, and only if, length() is 0."),
        single("toUpperCase", "String toUpperCase()", "Converts all of the characters in this String to upper case."),
        single("toLowerCase", "String toLowerCase()", "Converts all of the characters in this String to lower case."),
        single("trim", "String trim()", "Returns a string with all leading and trailing space removed."),
        single("split", "String[] split(String regex)", "Splits this string around matches of the given regular expression."),
        single("replace", "String replace(CharSequence target, CharSequence replacement)", "Replaces each substring of this string that matches the literal target sequence."),
        single("startsWith", "boolean startsWith(String prefix)", "Tests if this string starts with the specified prefix."),
        single("endsWith", "boolean endsWith(String suffix)", "Tests if this string ends with the specified suffix."),
        single("compareTo", "int compareTo(String anotherString)", "Compares two strings lexicographically."),
        single("toCharArray", "char[] toCharArray()", "Converts this string to a new character array."),
        method("valueOf", value_of),
        single("format", "static String format(String format, Object... args)", "Returns a formatted string using the specified format string and arguments."),
        single("toString", "String toString()", "This object (which is already a string!) is itself returned."),
    ];
    assert(method_views(methods@) =~= want.methods);
    class("String", methods)
}

/// `java.lang.StringBuilder`.
fn string_builder_class() -> (r: Class)
    ensures
        r.name@ == "StringBuilder"@,
        class_view(r) == string_builder_catalogue(),
{
    let ghost want = string_builder_catalogue();
    let append = vec![
        overload("StringBuilder append(String str)", "Appends the specified string to this character sequence."),
        overload("StringBuilder append(char c)", "Appends the string representation of the char argument to this sequence."),
        overload("StringBuilder append(int i)", "Appends the string representation of the int argument to this sequence."),
        overload("StringBuilder append(Object obj)", "Appends the string representation of the Object argument."),
    ];
    assert(overload_views(append@) =~= want.methods[0].overloads);
    let methods = vec![
        method("append", append),
        single("insert", "StringBuilder insert(int offset, String str)", "Inserts the string into this character sequence."),
        single("reverse", "StringBuilder reverse()", "Causes this character sequence to be replaced by the reverse of the sequence."),
        single("length", "int length()", "Returns the length (character count)."),
        single("charAt", "char charAt(int index)", "Returns the char value in this sequence at the specified index."),
        single("deleteCharAt", "StringBuilder deleteCharAt(int index)", "Removes the char at the specified position in this sequence."),
        single("toString", "String toString()", "Returns a string representing the data in this sequence."),
    ];
    assert(method_views(methods@) =~= want.methods);
    class("StringBuilder", methods)
}

/// `java.lang.Math`.
fn math_class() -> (r: Class)
    ensures
        class_view(r) == math_catalogue(),
{
    let ghost want = math_catalogue();
    let methods = vec![
        single("abs", "static int abs(int a)", "Returns the absolute value of an int value."),
        single("max", "static int max(int a, int b)", "Returns the greater of two int values."),
        single("min", "static int min(int a, int b)", "Returns the smaller of two int values."),
        single("pow", "static double pow(double a, double b)", "Returns the value of the first argument raised to the power of the second argument."),
        single("sqrt", "static double sqrt(double a)", "Returns the correctly rounded positive square root of a double value."),
        single("random", "static double random()", "Returns a double value greater than or equal to 0.0 and less than 1.0."),
        single("floor", "static double floor(double a)", "Returns the largest double value that is less than or equal to the argument."),
        single("ceil", "static double ceil(double a)", "Returns the smallest double value that is greater than or equal to the argument."),
        single("round", "static long round(double a)", "Returns the closest long to the argument."),
    ];
    assert(method_views(methods@) =~= want.methods);
    class("Math", methods)
}

/// `java.lang.Integer`.
fn integer_class() -> (r: Class)
    ensures
        class_view(r) == integer_catalogue(),
{
    let ghost want = integer_catalogue();
    let methods = vec![
        single("parseInt", "static int parseInt(String s)", "Parses the string argument as a signed decimal integer."),
        single("valueOf", "static Integer valueOf(int i)", "Returns an Integer instance representing the specified int value."),
        single("toString", "String toString()", "Returns a String object representing this Integer's value."),
        single("intValue", "int intValue()", "Returns the value of this Integer as an int."),
        single("compare", "static int compare(int x, int y)", "Compares two int values numerically."),
    ];
    assert(method_views(methods@) =~= want.methods);
    class("Integer", methods)
}

/// `java.lang.System`.
fn system_class() -> (r: Class)
    ensures
        class_view(r) == system_catalogue(),
{
    let ghost want = system_catalogue();
    let methods = vec![
        single("currentTimeMillis", "static long currentTimeMillis()", "Returns the current time in milliseconds."),
        single("nanoTime", "static long nanoTime()", "Returns the current value of the running high-resolution time source."),
        single("exit", "static void exit(int status)", "Terminates the currently running Java Virtual Machine."),
        single("arraycopy", "static void arraycopy(Object src, int srcPos, Object dest, int destPos, int length)", "Copies an array from the specified source array."),
    ];
    assert(method_views(methods@) =~= want.methods);
    class("System", methods)
}

/// `java.util.ArrayList`.
fn array_list_class() -> (r: Class)
    ensures
        class_view(r) == array_list_catalogue(),
{
    let ghost want = array_list_catalogue();
    let add = vec![
        overload("boolean add(E e)", "Appends the specified element to the end of this list."),
        overload("void add(int index, E element)", "Inserts the specified element at the specified position in this list."),
    ];
    assert(overload_views(add@) =~= want.methods[0].overloads);
    let methods = vec![
        method("add", add),
        single("get", "E get(int index)", "Returns the element at the specified position in this list."),
        single("set", "E set(int index, E element)", "Replaces the element at the specified position in this list."),
        single("remove", "E remove(int index)", "Removes the element at the specified position in this list."),
        single("size", "int size()", "Returns the number of elements in this list."),
        single("isEmpty", "boolean isEmpty()", "Returns true if this list contains no elements."),
        single("contains", "boolean contains(Object o)", "Returns true if this list contains the specified element."),
        single("clear", "void clear()", "Removes all of the elements from this list."),
        single("indexOf", "int indexOf(Object o)", "Returns the index of the first occurrence of the specified element."),
        single("toString", "String toString()", "Returns a string representation of this collection."),
    ];
    assert(method_views(methods@) =~= want.methods);
    class("ArrayList", methods)
}

/// `java.util.Arrays`.
fn arrays_class() -> (r: Class)
    ensures
        class_view(r) == arrays_catalogue(),
{
    let ghost want = arrays_catalogue();
    let methods = vec![
        single("sort", "static void sort(int[] a)", "Sorts the specified array into ascending numerical order."),
        single("toString", "static String toString(int[] a)", "Returns a string representation of the contents of the specified array."),
        single("asList", "static <T> List<T> asList(T... a)", "Returns a fixed-size list backed by the specified array."),
        single("fill", "static void fill(int[] a, int val)", "Assigns the specified int value to each element of the specified array."),
        single("copyOf", "static int[] copyOf(int[] a, int newLength)", "Copies the specified array, truncating or padding with zeros."),
    ];
    assert(method_views(methods@) =~= want.methods);
    class("Arrays", methods)
}

/// `java.util.HashMap`.
fn hash_map_class() -> (r: Class)
    ensures
        class_view(r) == hash_map_catalogue(),
{
    let ghost want = hash_map_catalogue();
    let methods = vec![
        single("put", "V put(K key, V value)", "Associates the specified value with the specified key in this map."),
        single("get", "V get(Object key)", "Returns the value to which the specified key is mapped."),
        single("containsKey", "boolean containsKey(Object key)", "Returns true if this map contains a mapping for the specified key."),
        single("remove", "V remove(Object key)", "Removes the mapping for the specified key from this map if present."),
        single("size", "int size()", "Returns the number of key-value mappings in this map."),
        single("keySet", "Set<K> keySet()", "Returns a Set view of the keys contained in this map."),
        single("values", "Collection<V> values()", "Returns a Collection view of the values contained in this map."),
    ];
    assert(method_views(methods@) =~= want.methods);
    class("HashMap", methods)
}

/// `java.util.Scanner`.
fn scanner_class() -> (r: Class)
    ensures
        class_view(r) == scanner_catalogue(),
{
    let ghost want = scanner_catalogue();
    let methods = vec![
        single("nextInt", "int nextInt()", "Scans the next token of the input as an int."),
        single("nextLine", "String nextLine()", "Advances this scanner past the current line and returns the input that was skipped."),
        single("next", "String next()", "Finds and returns the next complete token from this scanner."),
        single("hasNext", "boolean hasNext()", "Returns true if this scanner has another token in its input."),
        single("nextDouble", "double nextDouble()", "Scans the next token of the input as a double."),
        single("close", "void close()", "Closes this scanner."),
    ];
    assert(method_views(methods@) =~= want.methods);
    class("Scanner", methods)
}

/// `java.io.PrintStream`.
fn print_stream_class() -> (r: Class)
    ensures
        class_view(r) == print_stream_catalogue(),
{
    let ghost want = print_stream_catalogue();
    let println = vec![
        overload("void println()", "Terminates the current line by writing the line separator string."),
        overload("void println(String x)", "Prints a String and then terminates the line."),
        overload("void println(int x)", "Prints an integer and then terminates the line."),
        overload("void println(Object x)", "Prints an Object and then terminates the line."),
    ];
    assert(overload_views(println@) =~= want.methods[0].overloads);
    let print = vec![
        overload("void print(String s)", "Prints a string."),
        overload("void print(int i)", "Prints an integer."),
    ];
    assert(overload_views(print@) =~= want.methods[1].overloads);
    let methods = vec![
        method("println", println),
        method("print", print),
        single("printf", "PrintStream printf(String format, Object... args)", "Writes a formatted string to this output stream."),
    ];
    assert(method_views(methods@) =~= want.methods);
    class("PrintStream", methods)
}

/// The built-in catalogue: the classes of `java.lang`, `java.util` and
/// `java.io` that the diagnostics most often meet.
pub fn builtin_docs() -> (docs: JavaDocs)
    ensures
        docs.packages@.len() == 3,
        docs.packages@[0].package@ == "java.lang"@,
        docs.packages@[0].classes@.len() == 6,
        docs.packages@[0].classes@[1].name@ == "String"@,
        docs.packages@[0].classes@[2].name@ == "StringBuilder"@,
        docs_view(docs) == builtin_catalogue(),
{
    let ghost want = builtin_catalogue();
    let lang_classes = vec![
        object_class(),
        string_class(),
        string_builder_class(),
        math_class(),
        integer_class(),
        system_class(),
    ];
    assert(class_views(lang_classes@) =~= want[0].classes);
    let lang = package(
        "java.lang",
        "Provides classes that are fundamental to the design of the Java programming language.",
        lang_classes,
    );
    let util_classes = vec![array_list_class(), arrays_class(), hash_map_class(), scanner_class()];
    assert(class_views(util_classes@) =~= want[1].classes);
    let util = package(
        "java.util",
        "Contains the collections framework and miscellaneous utility classes.",
        util_classes,
    );
    let io_classes = vec![print_stream_class()];
    assert(class_views(io_classes@) =~= want[2].classes);
    let io = package(
        "java.io",
        "Provides for system input and output through data streams.",
        io_classes,
    );
    let docs = JavaDocs { packages: vec![lang, util, io] };
    assert(docs_view(docs) =~= want);
    docs
}

/// What follows for a catalogue from its being the built-in one: the
/// number of its packages and classes and their names.
proof fn lemma_catalogue_names(docs: JavaDocs)
    requires
        docs_view(docs) == builtin_catalogue(),
    ensures
        docs.packages@.len() == 3,
        docs.packages@[0].package@ == "java.lang"@,
        docs.packages@[1].package@ == "java.util"@,
        docs.packages@[2].package@ == "java.io"@,
        docs.packages@[0].classes@.len() == 6,
        docs.packages@[1].classes@.len() == 4,
        docs.packages@[2].classes@.len() == 1,
        class_view(docs.packages@[0].classes@[0]) == object_catalogue(),
        class_view(docs.packages@[0].classes@[1]) == string_catalogue(),
        class_view(docs.packages@[0].classes@[2]) == string_builder_catalogue(),
        class_view(docs.packages@[0].classes@[3]) == math_catalogue(),
        class_view(docs.packages@[0].classes@[4]) == integer_catalogue(),
        class_view(docs.packages@[0].classes@[5]) == system_catalogue(),
        class_view(docs.packages@[1].classes@[0]) == array_list_catalogue(),
        class_view(docs.packages@[1].classes@[1]) == arrays_catalogue(),
        class_view(docs.packages@[1].classes@[2]) == hash_map_catalogue(),
        class_view(docs.packages@[1].classes@[3]) == scanner_catalogue(),
        class_view(docs.packages@[2].classes@[0]) == print_stream_catalogue(),
{
    let want = builtin_catalogue();
    let got = docs_view(docs);
    assert(got.len() == 3);
    assert(got[0] == package_view(docs.packages@[0]));
    assert(got[1] == package_view(docs.packages@[1]));
    assert(got[2] == package_view(docs.packages@[2]));
    let lang = class_views(docs.packages@[0].classes@);
    let util = class_views(docs.packages@[1].classes@);
    let io = class_views(docs.packages@[2].classes@);
    assert(lang == want[0].classes);
    assert(util == want[1].classes);
    assert(io == want[2].classes);
    assert(lang.len() == 6 && util.len() == 4 && io.len() == 1);
    assert(lang[0] == class_view(docs.packages@[0].classes@[0]));
    assert(lang[1] == class_view(docs.packages@[0].classes@[1]));
    assert(lang[2] == class_view(docs.packages@[0].classes@[2]));
    assert(lang[3] == class_view(docs.packages@[0].classes@[3]));
    assert(lang[4] == class_view(docs.packages@[0].classes@[4]));
    assert(lang[5] == class_view(docs.packages@[0].classes@[5]));
    assert(util[0] == class_view(docs.packages@[1].classes@[0]));
    assert(util[1] == class_view(docs.packages@[1].classes@[1]));
    assert(util[2] == class_view(docs.packages@[1].classes@[2]));
    assert(util[3] == class_view(docs.packages@[1].classes@[3]));
    assert(io[0] == class_view(docs.packages@[2].classes@[0]));
}

/// No class of the built-in catalogue after `StringBuilder` bears that
/// name, simple or qualified.
proof fn lemma_string_builder_is_unique(docs: JavaDocs)
    requires
        docs_view(docs) == builtin_catalogue(),
    ensures
        forall|q: int, d: int|
            is_class_pos(docs, q, d) && class_before(0, 2, q, d) ==> !#[trigger] names_class(
                docs,
                "StringBuilder"@,
                q,
                d,
            ),
{
    lemma_catalogue_names(docs);
    reveal_strlit("StringBuilder");
    reveal_strlit("java.lang");
    reveal_strlit("java.util");
    reveal_strlit("java.io");
    reveal_strlit("Math");
    reveal_strlit("Integer");
    reveal_strlit("System");
    reveal_strlit("ArrayList");
    reveal_strlit("Arrays");
    reveal_strlit("HashMap");
    reveal_strlit("Scanner");
    reveal_strlit("PrintStream");
    assert forall|q: int, d: int|
        is_class_pos(docs, q, d) && class_before(0, 2, q, d) implies !#[trigger] names_class(
        docs,
        "StringBuilder"@,
        q,
        d,
    ) by {
        let pkg = docs.packages@[q];
        let cls = pkg.classes@[d];
        let name = class_view(cls).name;
        assert(name == cls.name@);
        assert(name.len() != 13);
        assert(qualified_name(pkg.package@, name).len() == pkg.package@.len() + 1 + name.len());
        assert(qualified_name(pkg.package@, name).len() != 13);
    }
}

/// The index of the built-in catalogue.
pub fn get_docs() -> (index: DocsIndex)
    ensures
        index.wf(),
        docs_view(index.docs) == builtin_catalogue(),
        index.docs.packages@.len() == 3,
        index.docs.packages@[0].package@ == "java.lang"@,
        index.docs.packages@[0].classes@.len() == 6,
        index.classes@.contains_key("String"@),
        index.classes@.contains_key(qualified_name("java.lang"@, "String"@)),
        index.classes@.contains_key("StringBuilder"@),
        index.classes@["StringBuilder"@] == (0usize, 2usize),
        class_view(index.class_named("StringBuilder"@)) == string_builder_catalogue(),
        index.class_named("StringBuilder"@).methods@.len() == 7,
        index.class_named("StringBuilder"@).methods@[0].name@ == "append"@,
        index.class_named("StringBuilder"@).methods@[0].overloads@.len() == 4,
        index.methods@.contains_key("toString"@),
        index.methods@["toString"@]@.len() > 0,
{
    let docs = builtin_docs();
    proof {
        lemma_catalogue_names(docs);
        lemma_class_index_complete(docs, 3, 0, 0, 1);
        lemma_class_index_complete(docs, 3, 0, 0, 2);
        lemma_string_builder_is_unique(docs);
        lemma_class_index_entry(docs, 3, 0, 0, 2, "StringBuilder"@);
        let builder = docs.packages@[0].classes@[2];
        let methods = method_views(builder.methods@);
        assert(methods == string_builder_catalogue().methods);
        assert(methods.len() == 7);
        assert(methods[0] == method_view(builder.methods@[0]));
        assert(overload_views(builder.methods@[0].overloads@).len() == 4);
        let object = docs.packages@[0].classes@[0];
        let first = method_views(object.methods@);
        assert(first == object_catalogue().methods);
        assert(first.len() == 4);
        assert(first[0] == method_view(object.methods@[0]));
        assert(object.methods@[0].name@ == "toString"@);
        lemma_method_index_complete(docs, 3, 0, 0, 0, 0, 0);
    }
    DocsIndex::build(docs)
}

/// An overload as plain values.
pub struct OverloadView {
    pub signature: Seq<char>,
    pub description: Seq<char>,
    pub deprecated: bool,
}

/// A method as plain values.
pub struct MethodView {
    pub name: Seq<char>,
    pub overloads: Seq<OverloadView>,
}

/// A class as plain values.
pub struct ClassView {
    pub name: Seq<char>,
    pub methods: Seq<MethodView>,
}

/// An overload as plain values.
pub open spec fn overload_view(o: Overload) -> OverloadView {
    OverloadView { signature: o.signature@, description: o.description@, deprecated: o.deprecated }
}

/// A list of overloads as plain values.
pub open spec fn overload_views(v: Seq<Overload>) -> Seq<OverloadView> {
    Seq::new(v.len(), |i: int| overload_view(v[i]))
}

/// A method as plain values.
pub open spec fn method_view(m: Method) -> MethodView {
    MethodView { name: m.name@, overloads: overload_views(m.overloads@) }
}

/// A list of methods as plain values.
pub open spec fn method_views(v: Seq<Method>) -> Seq<MethodView> {
    Seq::new(v.len(), |i: int| method_view(v[i]))
}

/// A class as plain values.
pub open spec fn class_view(c: Class) -> ClassView {
    ClassView { name: c.name@, methods: method_views(c.methods@) }
}

/// The overload with this signature and description that is not deprecated.
pub open spec fn plain(signature: Seq<char>, description: Seq<char>) -> OverloadView {
    OverloadView { signature, description, deprecated: false }
}

/// The method of this name with these overloads.
pub open spec fn many(name: Seq<char>, overloads: Seq<OverloadView>) -> MethodView {
    MethodView { name, overloads }
}

/// The method of this name with one overload.
pub open spec fn one(name: Seq<char>, signature: Seq<char>, description: Seq<char>) -> MethodView {
    many(name, seq![plain(signature, description)])
}

/// The class of this name with these methods.
pub open spec fn a_class(name: Seq<char>, methods: Seq<MethodView>) -> ClassView {
    ClassView { name, methods }
}

/// A package as plain values.
pub struct PackageView {
    pub name: Seq<char>,
    pub description: Seq<char>,
    pub classes: Seq<ClassView>,
}

/// A list of classes as plain values.
pub open spec fn class_views(v: Seq<Class>) -> Seq<ClassView> {
    Seq::new(v.len(), |i: int| class_view(v[i]))
}

/// A package as plain values.
pub open spec fn package_view(p: Package) -> PackageView {
    PackageView { name: p.package@, description: p.description@, classes: class_views(p.classes@) }
}

/// A catalogue as plain values: its packages in order.
pub open spec fn docs_view(docs: JavaDocs) -> Seq<PackageView> {
    Seq::new(docs.packages@.len(), |i: int| package_view(docs.packages@[i]))
}

/// The package of this name and description with these classes.
pub open spec fn a_package(
    name: Seq<char>,
    description: Seq<char>,
    classes: Seq<ClassView>,
) -> PackageView {
    PackageView { name, description, classes }
}

/// What the built-in catalogue holds: three packages with eleven classes.
pub open spec fn builtin_catalogue() -> Seq<PackageView> {
    seq![
        a_package(
            "java.lang"@,
            "Provides classes that are fundamental to the design of the Java programming language."@,
            seq![
                object_catalogue(),
                string_catalogue(),
                string_builder_catalogue(),
                math_catalogue(),
                integer_catalogue(),
                system_catalogue(),
            ],
        ),
        a_package(
            "java.util"@,
            "Contains the collections framework and miscellaneous utility classes."@,
            seq![
                array_list_catalogue(),
                arrays_catalogue(),
                hash_map_catalogue(),
                scanner_catalogue(),
            ],
        ),
        a_package(
            "java.io"@,
            "Provides for system input and output through data streams."@,
            seq![print_stream_catalogue()],
        ),
    ]
}

/// What the catalogue holds of `java.lang.Object`.
pub open spec fn object_catalogue() -> ClassView {
    a_class(
        "Object"@,
        seq![
            one("toString"@, "String toString()"@, "Returns a string representation of the object."@),
            one("equals"@, "boolean equals(Object obj)"@, "Indicates whether some other object is equal to this one."@),
            one("hashCode"@, "int hashCode()"@, "Returns a hash code value for the object."@),
            one("getClass"@, "Class<?> getClass()"@, "Returns the runtime class of this object."@),
        ],
    )
}

/// What the catalogue holds of `java.lang.String`.
pub open spec fn string_catalogue() -> ClassView {
    a_class(
        "String"@,
        seq![
            one("length"@, "int length()"@, "Returns the length of this string."@),
            one("charAt"@, "char charAt(int index)"@, "Returns the char value at the specified index."@),
            many(
                "substring"@,
                seq![
                    plain("String substring(int beginIndex)"@, "Returns a string that is a substring of this string."@),
                    plain("String substring(int beginIndex, int endIndex)"@, "Returns a string that is a substring of this string."@),
                ],
            ),
            many(
                "indexOf"@,
                seq![
                    plain("int indexOf(int ch)"@, "Returns the index of the first occurrence of the specified character."@),
                    plain("int indexOf(String str)"@, "Returns the index of the first occurrence of the specified substring."@),
                ],
            ),
            one("equals"@, "boolean equals(Object anObject)"@, "Compares this string to the specified object."@),
            one("equalsIgnoreCase"@, "boolean equalsIgnoreCase(String anotherString)"@, "Compares this String to another String, ignoring case considerations."@),
            one("contains"@, "boolean contains(CharSequence s)"@, "Returns true if and only if this string contains the specified sequence of char values."@),
            one("isEmpty"@, "boolean isEmpty()"@, "Returns true if, and only if, length() is 0."@),
            one("toUpperCase"@, "String toUpperCase()"@, "Converts all of the characters in this String to upper case."@),
            one("toLowerCase"@, "String toLowerCase()"@, "Converts all of the characters in this String to lower case."@),
            one("trim"@, "String trim()"@, "Returns a string with all leading and trailing space removed."@),
            one("split"@, "String[] split(String regex)"@, "Splits this string around matches of the given regular expression."@),
            one("replace"@, "String replace(CharSequence target, CharSequence replacement)"@, "Replaces each substring of this string that matches the literal target sequence."@),
            one("startsWith"@, "boolean startsWith(String prefix)"@, "Tests if this string starts with the specified prefix."@),
            one("endsWith"@, "boolean endsWith(String suffix)"@, "Tests if this string ends with the specified suffix."@),
            one("compareTo"@, "int compareTo(String anotherString)"@, "Compares two strings lexicographically."@),
            one("toCharArray"@, "char[] toCharArray()"@, "Converts this string to a new character array."@),
            many(
                "valueOf"@,
                seq![
                    plain("static String valueOf(int i)"@, "Returns the string representation of the int argument."@),
                    plain("static String valueOf(Object obj)"@, "Returns the string representation of the Object argument."@),
                ],
            ),
            one("format"@, "static String format(String format, Object... args)"@, "Returns a formatted string using the specified format string and arguments."@),
            one("toString"@, "String toString()"@, "This object (which is already a string!) is itself returned."@),
        ],
    )
}

/// What the catalogue holds of `java.lang.StringBuilder`.
pub open spec fn string_builder_catalogue() -> ClassView {
    a_class(
        "StringBuilder"@,
        seq![
            many(
                "append"@,
                seq![
                    plain("StringBuilder append(String str)"@, "Appends the specified string to this character sequence."@),
                    plain("StringBuilder append(char c)"@, "Appends the string representation of the char argument to this sequence."@),
                    plain("StringBuilder append(int i)"@, "Appends the string representation of the int argument to this sequence."@),
                    plain("StringBuilder append(Object obj)"@, "Appends the string representation of the Object argument."@),
                ],
            ),
            one("insert"@, "StringBuilder insert(int offset, String str)"@, "Inserts the string into this character sequence."@),
            one("reverse"@, "StringBuilder reverse()"@, "Causes this character sequence to be replaced by the reverse of the sequence."@),
            one("length"@, "int length()"@, "Returns the length (character count)."@),
            one("charAt"@, "char charAt(int index)"@, "Returns the char value in this sequence at the specified index."@),
            one("deleteCharAt"@, "StringBuilder deleteCharAt(int index)"@, "Removes the char at the specified position in this sequence."@),
            one("toString"@, "String toString()"@, "Returns a string representing the data in this sequence."@),
        ],
    )
}

/// What the catalogue holds of `java.lang.Math`.
pub open spec fn math_catalogue() -> ClassView {
    a_class(
        "Math"@,
        seq![
            one("abs"@, "static int abs(int a)"@, "Returns the absolute value of an int value."@),
            one("max"@, "static int max(int a, int b)"@, "Returns the greater of two int values."@),
            one("min"@, "static int min(int a, int b)"@, "Returns the smaller of two int values."@),
            one("pow"@, "static double pow(double a, double b)"@, "Returns the value of the first argument raised to the power of the second argument."@),
            one("sqrt"@, "static double sqrt(double a)"@, "Returns the correctly rounded positive square root of a double value."@),
            one("random"@, "static double random()"@, "Returns a double value greater than or equal to 0.0 and less than 1.0."@),
            one("floor"@, "static double floor(double a)"@, "Returns the largest double value that is less than or equal to the argument."@),
            one("ceil"@, "static double ceil(double a)"@, "Returns the smallest double value that is greater than or equal to the argument."@),
            one("round"@, "static long round(double a)"@, "Returns the closest long to the argument."@),
        ],
    )
}

/// What the catalogue holds of `java.lang.Integer`.
pub open spec fn integer_catalogue() -> ClassView {
    a_class(
        "Integer"@,
        seq![
            one("parseInt"@, "static int parseInt(String s)"@, "Parses the string argument as a signed decimal integer."@),
            one("valueOf"@, "static Integer valueOf(int i)"@, "Returns an Integer instance representing the specified int value."@),
            one("toString"@, "String toString()"@, "Returns a String object representing this Integer's value."@),
            one("intValue"@, "int intValue()"@, "Returns the value of this Integer as an int."@),
            one("compare"@, "static int compare(int x, int y)"@, "Compares two int values numerically."@),
        ],
    )
}

/// What the catalogue holds of `java.lang.System`.
pub open spec fn system_catalogue() -> ClassView {
    a_class(
        "System"@,
        seq![
            one("currentTimeMillis"@, "static long currentTimeMillis()"@, "Returns the current time in milliseconds."@),
            one("nanoTime"@, "static long nanoTime()"@, "Returns the current value of the running high-resolution time source."@),
            one("exit"@, "static void exit(int status)"@, "Terminates the currently running Java Virtual Machine."@),
            one("arraycopy"@, "static void arraycopy(Object src, int srcPos, Object dest, int destPos, int length)"@, "Copies an array from the specified source array."@),
        ],
    )
}

/// What the catalogue holds of `java.util.ArrayList`.
pub open spec fn array_list_catalogue() -> ClassView {
    a_class(
        "ArrayList"@,
        seq![
            many(
                "add"@,
                seq![
                    plain("boolean add(E e)"@, "Appends the specified element to the end of this list."@),
                    plain("void add(int index, E element)"@, "Inserts the specified element at the specified position in this list."@),
                ],
            ),
            one("get"@, "E get(int index)"@, "Returns the element at the specified position in this list."@),
            one("set"@, "E set(int index, E element)"@, "Replaces the element at the specified position in this list."@),
            one("remove"@, "E remove(int index)"@, "Removes the element at the specified position in this list."@),
            one("size"@, "int size()"@, "Returns the number of elements in this list."@),
            one("isEmpty"@, "boolean isEmpty()"@, "Returns true if this list contains no elements."@),
            one("contains"@, "boolean contains(Object o)"@, "Returns true if this list contains the specified element."@),
            one("clear"@, "void clear()"@, "Removes all of the elements from this list."@),
            one("indexOf"@, "int indexOf(Object o)"@, "Returns the index of the first occurrence of the specified element."@),
            one("toString"@, "String toString()"@, "Returns a string representation of this collection."@),
        ],
    )
}

/// What the catalogue holds of `java.util.Arrays`.
pub open spec fn arrays_catalogue() -> ClassView {
    a_class(
        "Arrays"@,
        seq![
            one("sort"@, "static void sort(int[] a)"@, "Sorts the specified array into ascending numerical order."@),
            one("toString"@, "static String toString(int[] a)"@, "Returns a string representation of the contents of the specified array."@),
            one("asList"@, "static <T> List<T> asList(T... a)"@, "Returns a fixed-size list backed by the specified array."@),
            one("fill"@, "static void fill(int[] a, int val)"@, "Assigns the specified int value to each element of the specified array."@),
            one("copyOf"@, "static int[] copyOf(int[] a, int newLength)"@, "Copies the specified array, truncating or padding with zeros."@),
        ],
    )
}

/// What the catalogue holds of `java.util.HashMap`.
pub open spec fn hash_map_catalogue() -> ClassView {
    a_class(
        "HashMap"@,
        seq![
            one("put"@, "V put(K key, V value)"@, "Associates the specified value with the specified key in this map."@),
            one("get"@, "V get(Object key)"@, "Returns the value to which the specified key is mapped."@),
            one("containsKey"@, "boolean containsKey(Object key)"@, "Returns true if this map contains a mapping for the specified key."@),
            one("remove"@, "V remove(Object key)"@, "Removes the mapping for the specified key from this map if present."@),
            one("size"@, "int size()"@, "Returns the number of key-value mappings in this map."@),
            one("keySet"@, "Set<K> keySet()"@, "Returns a Set view of the keys contained in this map."@),
            one("values"@, "Collection<V> values()"@, "Returns a Collection view of the values contained in this map."@),
        ],
    )
}

/// What the catalogue holds of `java.util.Scanner`.
pub open spec fn scanner_catalogue() -> ClassView {
    a_class(
        "Scanner"@,
        seq![
            one("nextInt"@, "int nextInt()"@, "Scans the next token of the input as an int."@),
            one("nextLine"@, "String nextLine()"@, "Advances this scanner past the current line and returns the input that was skipped."@),
            one("next"@, "String next()"@, "Finds and returns the next complete token from this scanner."@),
            one("hasNext"@, "boolean hasNext()"@, "Returns true if this scanner has another token in its input."@),
            one("nextDouble"@, "double nextDouble()"@, "Scans the next token of the input as a double."@),
            one("close"@, "void close()"@, "Closes this scanner."@),
        ],
    )
}

/// What the catalogue holds of `java.io.PrintStream`.
pub open spec fn print_stream_catalogue() -> ClassView {
    a_class(
        "PrintStream"@,
        seq![
            many(
                "println"@,
                seq![
                    plain("void println()"@, "Terminates the current line by writing the line separator string."@),
                    plain("void println(String x)"@, "Prints a String and then terminates the line."@),
                    plain("void println(int x)"@, "Prints an integer and then terminates the line."@),
                    plain("void println(Object x)"@, "Prints an Object and then terminates the line."@),
                ],
            ),
            many(
                "print"@,
                seq![
                    plain("void print(String s)"@, "Prints a string."@),
                    plain("void print(int i)"@, "Prints an integer."@),
                ],
            ),
            one("printf"@, "PrintStream printf(String format, Object... args)"@, "Writes a formatted string to this output stream."@),
        ],
    )
}

} // verus!
