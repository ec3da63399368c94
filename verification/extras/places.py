"""Keeps the places in errors true.

An error of the library is raised with the place of the expression that raises
it, written out as `at("src/file.rs", line, column)`. Run this from the root of
the project after an edit: it rewrites every place that is no longer true, and
says how many there were.
"""

import pathlib
import re

CALL = re.compile(r"Error::(?:message|invalid_argument|from_\w+)\(")
PLACE = re.compile(r'\bat\("[^"]*", \d+, \d+\)')


def end_of_call(text, start):
    """The position of the bracket that closes the one at `start`."""
    depth, quoted, position = 0, False, start
    while True:
        char = text[position]
        if quoted:
            if char == "\\":
                position += 1
            elif char == '"':
                quoted = False
        elif char == '"':
            quoted = True
        elif char == "(":
            depth += 1
        elif char == ")":
            depth -= 1
            if depth == 0:
                return position
        position += 1


def refresh(path):
    """Rewrites the places in a file, and counts those that were not true."""
    text, changed = path.read_text(), 0
    for call in reversed(list(CALL.finditer(text))):
        end = end_of_call(text, call.end() - 1)
        found = PLACE.search(text, call.end(), end)
        if found is None:
            continue
        line = text.count("\n", 0, call.start()) + 1
        column = call.start() - text.rfind("\n", 0, call.start())
        place = f'at("{path.as_posix()}", {line}, {column})'
        if found.group() != place:
            text = text[: found.start()] + place + text[found.end() :]
            changed += 1
    if changed:
        path.write_text(text)
    return changed


if __name__ == "__main__":
    print(sum(refresh(path) for path in sorted(pathlib.Path("src").rglob("*.rs"))))
