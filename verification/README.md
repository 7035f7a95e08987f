# jvm_core

The verified core of a small Java virtual machine, written in Verus.

- `class_file`, `class_spec`: the class-file parser and the byte-level
  specification it is proved against; `descriptors`, `resolution`:
  descriptors and constant-pool lookups; `annotations`: annotation types
  read from attribute bytes.
- `arith`: the integer instructions of the bytecode: arithmetic, shifts,
  conversions, conditional branches and switch targets.
- `bytecode`: one interpreter step on a frame (constants, locals, stack
  manipulation, `int`/`long` arithmetic, jumps, switches, returns), the
  check that a step can run, and the frame of a call; `heap`: the object
  heap with the array instructions, `newarray`/`anewarray`, `getfield` /
  `putfield`, `ldc` with interned strings, entering an exception handler
  with the thrown object, and the read-after-write laws; `array_natives`: `System.arraycopy` and
  `Array.getLength` on the heap; `invoke`: the `toString`/`hashCode` of a
  record and the call a lambda object forwards. What needs class loading,
  invocation or floating point comes back to the caller as a delegated
  step.
- `machine`: the interpreter over a call stack: `invokestatic`,
  `invokespecial`, `invokevirtual` and `invokeinterface` push the callee's
  frame (a class is initialized, its `<clinit>` run, before a static call,
  `new` or a static field access), returns hand the value to the caller,
  `getstatic`/`putstatic`, `new`, `checkcast`/`instanceof`, `athrow` and
  `monitorenter`/`monitorexit` run on the machine's state, and an exception unwinds through the
  callers' exception tables; `invokedynamic` call sites of
  `StringConcatFactory` make their string; calls of methods not in
  bytecode are handed out to the caller and their results handed back. `invoke_static`,
  `invoke_special` and `invoke_virtual` run a method from outside.
- `string_concat`: the string a `StringConcatFactory` recipe makes of its
  arguments and constants, and the recipe and constants of a call site
  read from the constant pool; `class_natives`: what the reflection methods of
  `java.lang.Class` answer about a class.
- `indy`: what an `invokedynamic` call site names (bootstrap method,
  implementation handle, descriptors); `dispatch`: the static-call check,
  the `Object` monitor methods and whether a call pushes a result;
  `string_natives`: the `java.lang.String` methods computed on the
  string's text.
- `class_identity`: loader-scoped class identities and the loader ids of
  class-loader objects.
- `loading`: the decisions around resolving a symbolic class reference
  through the class loaders.
- `class_init`: which classes are initialized or erroneous, what must be
  initialized first, and whether a class declares `<clinit>`.
- `method_exec`: a declared method found by name and descriptor, and what
  executing it needs.
- `static_fields`: static field values by class, and the search for a
  static field (or a `ConstantValue` constant) through the hierarchy.
- `hierarchy`: linked classes and member resolution through the class
  hierarchy (fields, methods, maximally-specific interface methods),
  `instanceof`, exception-handler selection, and the laws that tie them
  together.
- `threads`, `monitors`: green threads, the round-robin scheduler and
  reentrant object monitors with `wait` / `notify`, and the
  `monitorenter` / `monitorexit` instructions.
- `process`, `launcher`: a JVM run as a process: stdio pipes, exit status,
  and the scheduling decisions of each pump round.
- `jar`: classes and resources of JAR archives, read lazily.
- `lazy_classes`: the VM's classes by name, parsed on first access, and
  the registration of a JAR's classes as pending entries.
- `regex_cache`, `exceptions`, `frame`, `java_strings`, `text`,
  `collections`: smaller runtime helpers.

`tests/` holds the tests; `app/` is the `run_bundle` command-line program.
