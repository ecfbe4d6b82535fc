#!/usr/bin/env python3
"""Prints what a build passes to the engine about itself, as lines for its environment.

The fingerprint covers the resolved dependencies, the release and commit of the compiler,
the schema version of strategy documents, the sources of the library and the target
triple, which is the one argument.
"""
import hashlib
import pathlib
import re
import subprocess
import sys

ROOT = pathlib.Path(__file__).resolve().parent.parent
SCHEMA = ROOT / "src" / "domain" / "dsl" / "schema_version.rs"


def field(digest, data):
    digest.update(len(data).to_bytes(8, "big"))
    digest.update(data)


def compiler():
    lines = subprocess.run(["rustc", "-vV"], check=True, capture_output=True, text=True).stdout
    return "\n".join(
        line for line in lines.splitlines() if line.startswith(("release:", "commit-hash:"))
    )


def main():
    triple = sys.argv[1]
    schema = re.search(r'DSL_SCHEMA_VERSION: &\'static str = "([^"]+)"', SCHEMA.read_text()).group(1)
    digest = hashlib.sha256()
    field(digest, (ROOT / "Cargo.lock").read_bytes())
    field(digest, compiler().encode())
    field(digest, schema.encode())
    for path in sorted((ROOT / "src").rglob("*.rs")):
        field(digest, str(path.relative_to(ROOT)).encode())
        field(digest, path.read_bytes())
    field(digest, triple.encode())
    print(f"PULSE_ENGINE_FINGERPRINT={digest.hexdigest()}")
    print(f"PULSE_TARGET_TRIPLE={triple}")


if __name__ == "__main__":
    main()
